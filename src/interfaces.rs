use vstd::prelude::*;
use vstd::string::StringExecFns;
use crate::log::{LogEntry, LogLevel};

verus! {

/// The physical medium behind an interface.
#[derive(Clone, Copy, Debug, PartialEq, Eq, Structural)]
pub enum PhysInterface {
    NoPhysical,
    Serial,
    Ethernet,
    I2C,
    SPI,
    CAN,
    RS232,
    RS485,
}

/// The logical kind of an interface.
#[derive(Clone, Copy, Debug, PartialEq, Eq, Structural)]
pub enum LogicalInterface {
    File,
    Log,
    Socket,
    Pipe,
    SharedMemory,
    MessageQueue,
    Signal,
}

/// The physical and logical kind of an interface, fixed when it is made.
#[derive(Clone, Copy, Debug, PartialEq, Eq, Structural)]
pub struct InterfaceType {
    pub phys: PhysInterface,
    pub logic: LogicalInterface,
}

impl InterfaceType {
    pub fn new(phys: PhysInterface, logic: LogicalInterface) -> (r: Self)
        ensures
            r.phys == phys,
            r.logic == logic,
    {
        InterfaceType { phys, logic }
    }
}

#[derive(Clone, Copy, Debug, PartialEq, Eq, Structural)]
pub enum InterfaceStatus {
    Connected,
    Disconnected,
    Error,
}

/// Which operations an interface permits.
#[derive(Clone, Copy, Debug, PartialEq, Eq, Structural)]
pub enum InterfaceMode {
    Read,
    Write,
    ReadWrite,
}

/// The protocol an interface speaks; descriptive only.
#[derive(Clone, Copy, Debug, PartialEq, Eq, Structural)]
pub enum InterfaceProtocol {
    Raw,
    TcpIp,
    UdpIp,
    CANopen,
    EtherCAT,
}

#[derive(Clone, Copy, Debug, PartialEq, Eq, Structural)]
pub enum InterfaceError {
    Timeout,
    Overflow,
    Underflow,
    FramingError,
    ParityError,
    ChecksumError,
    ProtocolError,
    WriteOnReadOnly,
    ReadOnWriteOnly,
    NotOpenIFace,
    AlreadyOpenIFace,
    NotValidSocketAddr,
    GenericError,
}

/// The text that describes an error.
pub open spec fn error_text(e: InterfaceError) -> Seq<char> {
    match e {
            InterfaceError::Timeout => "Timeout"@,
            InterfaceError::Overflow => "Overflow"@,
            InterfaceError::Underflow => "Underflow"@,
            InterfaceError::FramingError => "Framing Error"@,
            InterfaceError::ParityError => "Parity Error"@,
            InterfaceError::ChecksumError => "Checksum Error"@,
            InterfaceError::ProtocolError => "Protocol Error"@,
            InterfaceError::WriteOnReadOnly => "Write on Read Only"@,
            InterfaceError::ReadOnWriteOnly => "Read on Write Only"@,
            InterfaceError::NotOpenIFace => "Interface not open"@,
            InterfaceError::AlreadyOpenIFace => "Interface already open"@,
            InterfaceError::NotValidSocketAddr => "Not valid socket address"@,
            InterfaceError::GenericError => "Unpredictable error"@,
    }
}

impl InterfaceError {
    pub fn to_string(&self) -> (r: String)
        ensures
            r@ == error_text(*self),
    {
        match self {
            InterfaceError::Timeout => String::from_str("Timeout"),
            InterfaceError::Overflow => String::from_str("Overflow"),
            InterfaceError::Underflow => String::from_str("Underflow"),
            InterfaceError::FramingError => String::from_str("Framing Error"),
            InterfaceError::ParityError => String::from_str("Parity Error"),
            InterfaceError::ChecksumError => String::from_str("Checksum Error"),
            InterfaceError::ProtocolError => String::from_str("Protocol Error"),
            InterfaceError::WriteOnReadOnly => String::from_str("Write on Read Only"),
            InterfaceError::ReadOnWriteOnly => String::from_str("Read on Write Only"),
            InterfaceError::NotOpenIFace => String::from_str("Interface not open"),
            InterfaceError::AlreadyOpenIFace => String::from_str("Interface already open"),
            InterfaceError::NotValidSocketAddr => String::from_str("Not valid socket address"),
            InterfaceError::GenericError => String::from_str("Unpredictable error"),
        }
    }
}

#[derive(Clone, Copy, Debug, PartialEq, Eq, Structural)]
pub enum InterfaceEvent {
    DataReceived,
    DataSent,
    ConnectionEstablished,
    ConnectionLost,
    ErrorOccurred,
}

/// An IP address as its octets (version 4) or segments (version 6).
#[derive(Clone, Copy, Debug, PartialEq, Eq, Structural)]
pub enum IpAddress {
    V4(u8, u8, u8, u8),
    V6(u16, u16, u16, u16, u16, u16, u16, u16),
}

impl IpAddress {
    /// Multicast addresses: 224.0.0.0/4 for version 4, ff00::/8 for version 6.
    pub open spec fn is_multicast_spec(self) -> bool {
        match self {
            IpAddress::V4(a, _, _, _) => 224 <= a <= 239,
            IpAddress::V6(s, _, _, _, _, _, _, _) => s >= 0xff00,
        }
    }

    pub fn is_multicast(&self) -> (r: bool)
        ensures
            r == self.is_multicast_spec(),
    {
        match self {
            IpAddress::V4(a, _, _, _) => 224 <= *a && *a <= 239,
            IpAddress::V6(s, _, _, _, _, _, _, _) => *s >= 0xff00,
        }
    }
}

/// The multicast group an interface joins for its remote address: the
/// address itself when it is a multicast address, else none.
pub open spec fn multicast_group_spec(remote: Option<IpAddress>) -> Option<IpAddress> {
    match remote {
        Some(a) => if a.is_multicast_spec() {
            Some(a)
        } else {
            None
        },
        None => None,
    }
}

pub fn multicast_group(remote: Option<IpAddress>) -> (r: Option<IpAddress>)
    ensures
        r == multicast_group_spec(remote),
{
    match remote {
        Some(a) => if a.is_multicast() {
            Some(a)
        } else {
            None
        },
        None => None,
    }
}

/// What an interface's bookkeeping holds, as plain values.
pub ghost struct InterfaceState {
    pub name: Seq<char>,
    pub description: Seq<char>,
    pub status: InterfaceStatus,
    pub mode: InterfaceMode,
    pub interface_type: InterfaceType,
    pub protocol: InterfaceProtocol,
    pub log_interface: bool,
    pub error: Option<InterfaceError>,
    pub event: Option<InterfaceEvent>,
}

impl InterfaceState {
    /// The state after an operation with result `r`: a failure is recorded
    /// as the last error, a success leaves the state as it is.
    pub open spec fn recorded<T>(self, r: Result<T, InterfaceError>) -> InterfaceState {
        match r {
            Err(e) => InterfaceState { error: Some(e), ..self },
            Ok(_) => self,
        }
    }

    /// The state after a read or write check with result `r`: a failure is
    /// recorded, a success clears the last error.
    pub open spec fn checked(self, r: Result<(), InterfaceError>) -> InterfaceState {
        match r {
            Err(e) => InterfaceState { error: Some(e), ..self },
            Ok(_) => InterfaceState { error: None, ..self },
        }
    }
}

/// The name, kind, mode, status and last error that every interface keeps.
pub struct BaseInterface {
    name: String,
    description: String,
    status: InterfaceStatus,
    mode: InterfaceMode,
    interface_type: InterfaceType,
    interface_protocol: InterfaceProtocol,
    log_interface: bool,
    error: Option<InterfaceError>,
    event: Option<InterfaceEvent>,
}

impl View for BaseInterface {
    type V = InterfaceState;

    closed spec fn view(&self) -> InterfaceState {
        InterfaceState {
            name: self.name@,
            description: self.description@,
            status: self.status,
            mode: self.mode,
            interface_type: self.interface_type,
            protocol: self.interface_protocol,
            log_interface: self.log_interface,
            error: self.error,
            event: self.event,
        }
    }
}

impl BaseInterface {
    /// A disconnected interface with no error. It is a logging sink when
    /// `log_if` is `Some(true)`.
    pub fn new(
        name: String,
        description: String,
        interface_type: InterfaceType,
        mode: InterfaceMode,
        interface_protocol: InterfaceProtocol,
        log_if: Option<bool>,
    ) -> (r: Self)
        ensures
            r@ == (InterfaceState {
                name: name@,
                description: description@,
                status: InterfaceStatus::Disconnected,
                mode,
                interface_type,
                protocol: interface_protocol,
                log_interface: log_if == Some(true),
                error: None,
                event: None,
            }),
    {
        let log_interface = match log_if {
            Some(b) => b,
            None => false,
        };
        BaseInterface {
            name,
            description,
            status: InterfaceStatus::Disconnected,
            mode,
            interface_type,
            interface_protocol,
            log_interface,
            error: None,
            event: None,
        }
    }

    pub fn get_name(&self) -> (r: String)
        ensures
            r@ == self@.name,
    {
        self.name.clone()
    }

    pub fn get_description(&self) -> (r: String)
        ensures
            r@ == self@.description,
    {
        self.description.clone()
    }

    pub fn get_type(&self) -> (r: InterfaceType)
        ensures
            r == self@.interface_type,
    {
        self.interface_type
    }

    pub fn get_status(&self) -> (r: InterfaceStatus)
        ensures
            r == self@.status,
    {
        self.status
    }

    pub fn get_mode(&self) -> (r: InterfaceMode)
        ensures
            r == self@.mode,
    {
        self.mode
    }

    pub fn get_protocol(&self) -> (r: InterfaceProtocol)
        ensures
            r == self@.protocol,
    {
        self.interface_protocol
    }

    pub fn get_error(&self) -> (r: Option<InterfaceError>)
        ensures
            r == self@.error,
    {
        self.error
    }

    pub fn get_event(&self) -> (r: Option<InterfaceEvent>)
        ensures
            r == self@.event,
    {
        self.event
    }

    pub fn is_log_interface(&self) -> (r: bool)
        ensures
            r == self@.log_interface,
    {
        self.log_interface
    }

    /// Records `error` as the last error.
    pub fn set_error(&mut self, error: InterfaceError)
        ensures
            final(self)@ == (InterfaceState { error: Some(error), ..old(self)@ }),
    {
        self.error = Some(error);
    }

    /// The entry that reports the last error to the log, tagged with the
    /// interface's name. A logging sink reports nothing, so that its own
    /// errors cannot loop back into it.
    pub fn log_error(&self) -> (r: Option<LogEntry>)
        ensures
            r is Some <==> !self@.log_interface && self@.error is Some,
            r matches Some(entry) ==> {
                &&& entry.level == LogLevel::ERR
                &&& entry.sender@ == "interface:"@ + self@.name
                &&& entry.message@ == error_text(self@.error->0)
            },
    {
        if self.log_interface {
            return None;
        }
        match self.error {
            Some(error) => {
                let mut sender = String::from_str("interface:");
                sender.append(self.name.as_str());
                let message = error.to_string();
                Some(LogEntry::new(LogLevel::ERR, sender, message))
            },
            None => None,
        }
    }
}

/// An interface's bookkeeping together with the transport resource (a file,
/// a socket) that it holds while connected. Each operation first decides
/// here whether it may go ahead; the transport then does the work.
pub struct Endpoint<R> {
    base: BaseInterface,
    resource: Option<R>,
}

impl<R> Endpoint<R> {
    pub closed spec fn state(&self) -> InterfaceState {
        self.base@
    }

    /// The resource held, if any.
    pub closed spec fn held(&self) -> Option<R> {
        self.resource
    }

    /// The interface is connected exactly while it holds its resource.
    pub open spec fn wf(&self) -> bool {
        (self.state().status == InterfaceStatus::Connected) <==> self.held() is Some
    }

    /// `open` may go ahead unless the interface is already connected.
    pub open spec fn open_outcome(&self) -> Result<(), InterfaceError> {
        if self.state().status == InterfaceStatus::Connected {
            Err(InterfaceError::AlreadyOpenIFace)
        } else {
            Ok(())
        }
    }

    /// `close` may go ahead when the interface is connected and holds its
    /// resource.
    pub open spec fn close_outcome(&self) -> Result<(), InterfaceError> {
        if self.state().status == InterfaceStatus::Disconnected || self.held() is None {
            Err(InterfaceError::NotOpenIFace)
        } else {
            Ok(())
        }
    }

    /// `read` is refused on a write-only interface, then on one that is not
    /// connected.
    pub open spec fn read_outcome(&self) -> Result<(), InterfaceError> {
        if self.state().mode == InterfaceMode::Write {
            Err(InterfaceError::WriteOnReadOnly)
        } else if self.state().status != InterfaceStatus::Connected {
            Err(InterfaceError::NotOpenIFace)
        } else if self.held() is None {
            Err(InterfaceError::GenericError)
        } else {
            Ok(())
        }
    }

    /// `write` is refused on a read-only interface, then on one that is not
    /// connected.
    pub open spec fn write_outcome(&self) -> Result<(), InterfaceError> {
        if self.state().mode == InterfaceMode::Read {
            Err(InterfaceError::ReadOnWriteOnly)
        } else if self.state().status != InterfaceStatus::Connected {
            Err(InterfaceError::NotOpenIFace)
        } else if self.held() is None {
            Err(InterfaceError::GenericError)
        } else {
            Ok(())
        }
    }

    /// `after` is `before` once `begin_open` returned `r`.
    pub open spec fn opening(before: Self, after: Self, r: Result<(), InterfaceError>) -> bool {
        &&& r == before.open_outcome()
        &&& after.held() == before.held()
        &&& after.state() == before.state().recorded(r)
    }

    /// `after` is `before` once `complete_open` stored `resource`.
    pub open spec fn attaching(before: Self, after: Self, resource: R) -> bool {
        &&& after.held() == Some(resource)
        &&& after.state() == (InterfaceState { status: InterfaceStatus::Connected, ..before.state() })
    }

    /// `after` is `before` once `close` returned `r`: on success the
    /// resource is handed back and the interface is disconnected.
    pub open spec fn closing(before: Self, after: Self, r: Result<R, InterfaceError>) -> bool {
        match before.close_outcome() {
            Err(e) => {
                &&& r == Err::<R, InterfaceError>(e)
                &&& after.held() == before.held()
                &&& after.state() == before.state().recorded(r)
            },
            Ok(_) => {
                &&& r == Ok::<R, InterfaceError>(before.held()->0)
                &&& after.held() is None
                &&& after.state() == (InterfaceState {
                    status: InterfaceStatus::Disconnected,
                    ..before.state()
                })
            },
        }
    }

    /// `after` is `before` once `begin_read` returned `r`.
    pub open spec fn reading(before: Self, after: Self, r: Result<(), InterfaceError>) -> bool {
        &&& r == before.read_outcome()
        &&& after.held() == before.held()
        &&& after.state() == before.state().checked(r)
    }

    /// `after` is `before` once `begin_write` returned `r`.
    pub open spec fn writing(before: Self, after: Self, r: Result<(), InterfaceError>) -> bool {
        &&& r == before.write_outcome()
        &&& after.held() == before.held()
        &&& after.state() == before.state().checked(r)
    }

    /// A disconnected endpoint that holds no resource.
    /// An endpoint that holds no resource. A connected `base` starts out
    /// disconnected, since nothing is held yet.
    pub fn new(base: BaseInterface) -> (r: Self)
        ensures
            r.wf(),
            r.held() is None,
            r.state() == if base@.status == InterfaceStatus::Connected {
                InterfaceState { status: InterfaceStatus::Disconnected, ..base@ }
            } else {
                base@
            },
    {
        let mut base = base;
        if base.status == InterfaceStatus::Connected {
            base.status = InterfaceStatus::Disconnected;
        }
        Endpoint { base, resource: None }
    }

    pub fn base(&self) -> (r: &BaseInterface)
        ensures
            r@ == self.state(),
    {
        &self.base
    }

    /// The resource held, for the transport to work on.
    pub fn resource(&self) -> (r: Option<&R>)
        ensures
            r is Some <==> self.held() is Some,
            r is Some ==> *r->0 == self.held()->0,
    {
        self.resource.as_ref()
    }

    /// Decides whether `open` may acquire a resource.
    pub fn begin_open(&mut self) -> (r: Result<(), InterfaceError>)
        requires
            old(self).wf(),
        ensures
            final(self).wf(),
            Self::opening(*old(self), *final(self), r),
    {
        if self.base.status == InterfaceStatus::Connected {
            self.base.set_error(InterfaceError::AlreadyOpenIFace);
            return Err(InterfaceError::AlreadyOpenIFace);
        }
        Ok(())
    }

    /// Stores the resource that `open` acquired and connects; only after
    /// `begin_open` allowed it.
    pub fn complete_open(&mut self, resource: R)
        requires
            old(self).wf(),
            old(self).state().status != InterfaceStatus::Connected,
        ensures
            final(self).wf(),
            Self::attaching(*old(self), *final(self), resource),
    {
        self.resource = Some(resource);
        self.base.status = InterfaceStatus::Connected;
    }

    /// Records a failure of the transport itself.
    pub fn fail(&mut self, error: InterfaceError) -> (r: InterfaceError)
        requires
            old(self).wf(),
        ensures
            final(self).wf(),
            r == error,
            final(self).held() == old(self).held(),
            final(self).state() == old(self).state().recorded(Err::<(), InterfaceError>(error)),
    {
        self.base.set_error(error);
        error
    }

    /// Disconnects and hands back the resource, for the transport to flush
    /// and release.
    pub fn close(&mut self) -> (r: Result<R, InterfaceError>)
        requires
            old(self).wf(),
        ensures
            final(self).wf(),
            Self::closing(*old(self), *final(self), r),
    {
        if self.base.status == InterfaceStatus::Disconnected {
            self.base.set_error(InterfaceError::NotOpenIFace);
            return Err(InterfaceError::NotOpenIFace);
        }
        match self.resource.take() {
            Some(resource) => {
                self.base.status = InterfaceStatus::Disconnected;
                Ok(resource)
            },
            None => {
                self.base.set_error(InterfaceError::NotOpenIFace);
                Err(InterfaceError::NotOpenIFace)
            },
        }
    }

    /// Decides whether `read` may use the resource; on success the last
    /// error is cleared.
    pub fn begin_read(&mut self) -> (r: Result<(), InterfaceError>)
        requires
            old(self).wf(),
        ensures
            final(self).wf(),
            Self::reading(*old(self), *final(self), r),
    {
        if self.base.mode == InterfaceMode::Write {
            self.base.set_error(InterfaceError::WriteOnReadOnly);
            return Err(InterfaceError::WriteOnReadOnly);
        }
        self.check_connected()
    }

    /// Decides whether `write` may use the resource; on success the last
    /// error is cleared.
    pub fn begin_write(&mut self) -> (r: Result<(), InterfaceError>)
        requires
            old(self).wf(),
        ensures
            final(self).wf(),
            Self::writing(*old(self), *final(self), r),
    {
        if self.base.mode == InterfaceMode::Read {
            self.base.set_error(InterfaceError::ReadOnWriteOnly);
            return Err(InterfaceError::ReadOnWriteOnly);
        }
        self.check_connected()
    }

    fn check_connected(&mut self) -> (r: Result<(), InterfaceError>)
        requires
            old(self).wf(),
        ensures
            final(self).wf(),
            r == if old(self).state().status != InterfaceStatus::Connected {
                Err(InterfaceError::NotOpenIFace)
            } else if old(self).held() is None {
                Err(InterfaceError::GenericError)
            } else {
                Ok(())
            },
            final(self).held() == old(self).held(),
            final(self).state() == old(self).state().checked(r),
    {
        if self.base.status != InterfaceStatus::Connected {
            self.base.set_error(InterfaceError::NotOpenIFace);
            return Err(InterfaceError::NotOpenIFace);
        }
        if self.resource.is_none() {
            self.base.set_error(InterfaceError::GenericError);
            return Err(InterfaceError::GenericError);
        }
        self.base.error = None;
        Ok(())
    }

    /// Checks a remote address for writing to: refused on a read-only
    /// interface, and when the address could not be parsed.
    pub fn check_remote(&mut self, parsed: Option<IpAddress>) -> (r: Result<IpAddress, InterfaceError>)
        requires
            old(self).wf(),
        ensures
            final(self).wf(),
            r == if old(self).state().mode == InterfaceMode::Read {
                Err(InterfaceError::ReadOnWriteOnly)
            } else {
                match parsed {
                    Some(a) => Ok(a),
                    None => Err(InterfaceError::NotValidSocketAddr),
                }
            },
            final(self).held() == old(self).held(),
            final(self).state() == old(self).state().recorded(r),
    {
        if self.base.mode == InterfaceMode::Read {
            self.base.set_error(InterfaceError::ReadOnWriteOnly);
            return Err(InterfaceError::ReadOnWriteOnly);
        }
        match parsed {
            Some(a) => Ok(a),
            None => {
                self.base.set_error(InterfaceError::NotValidSocketAddr);
                Err(InterfaceError::NotValidSocketAddr)
            },
        }
    }
}

/// Reading or writing an interface that was never opened fails with
/// `NotOpenIFace` (where its mode permits the operation at all) and leaves
/// the resource slot as it was.
pub proof fn law_io_before_open<R>(
    before: Endpoint<R>,
    after_read: Endpoint<R>,
    read: Result<(), InterfaceError>,
    after_write: Endpoint<R>,
    write: Result<(), InterfaceError>,
)
    requires
        before.state().status != InterfaceStatus::Connected,
        Endpoint::reading(before, after_read, read),
        Endpoint::writing(before, after_write, write),
    ensures
        before.state().mode != InterfaceMode::Write ==> read == Err::<(), InterfaceError>(
            InterfaceError::NotOpenIFace,
        ),
        before.state().mode != InterfaceMode::Read ==> write == Err::<(), InterfaceError>(
            InterfaceError::NotOpenIFace,
        ),
        after_read.held() == before.held(),
        after_write.held() == before.held(),
{
}

/// Opening twice: once the first open has stored its resource, a second
/// `open` is refused with `AlreadyOpenIFace` and the first resource stays.
pub proof fn law_open_twice<R>(
    fresh: Endpoint<R>,
    checked: Endpoint<R>,
    opened: Endpoint<R>,
    resource: R,
    again: Endpoint<R>,
    second: Result<(), InterfaceError>,
)
    requires
        Endpoint::opening(fresh, checked, Ok(())),
        Endpoint::attaching(checked, opened, resource),
        Endpoint::opening(opened, again, second),
    ensures
        second == Err::<(), InterfaceError>(InterfaceError::AlreadyOpenIFace),
        again.held() == Some(resource),
        again.state().status == InterfaceStatus::Connected,
{
}

/// Mode enforcement: whatever the state, a read-only interface refuses
/// `write` with `ReadOnWriteOnly` and a write-only one refuses `read` with
/// `WriteOnReadOnly`.
pub proof fn law_mode_enforced<R>(
    before: Endpoint<R>,
    after_read: Endpoint<R>,
    read: Result<(), InterfaceError>,
    after_write: Endpoint<R>,
    write: Result<(), InterfaceError>,
)
    requires
        Endpoint::reading(before, after_read, read),
        Endpoint::writing(before, after_write, write),
    ensures
        before.state().mode == InterfaceMode::Read ==> write == Err::<(), InterfaceError>(
            InterfaceError::ReadOnWriteOnly,
        ),
        before.state().mode == InterfaceMode::Write ==> read == Err::<(), InterfaceError>(
            InterfaceError::WriteOnReadOnly,
        ),
{
}

/// Multicast lifecycle: an interface whose remote address is a multicast
/// address joins that group on open; `close` hands the resource back (for
/// the group to be left) and disconnects, after which `read` fails with
/// `NotOpenIFace`.
pub proof fn law_multicast_close<R>(
    remote: IpAddress,
    opened: Endpoint<R>,
    closed: Endpoint<R>,
    released: Result<R, InterfaceError>,
    after_read: Endpoint<R>,
    read: Result<(), InterfaceError>,
)
    requires
        remote.is_multicast_spec(),
        opened.state().status == InterfaceStatus::Connected,
        opened.held() is Some,
        opened.state().mode != InterfaceMode::Write,
        Endpoint::closing(opened, closed, released),
        Endpoint::reading(closed, after_read, read),
    ensures
        multicast_group_spec(Some(remote)) == Some(remote),
        released == Ok::<R, InterfaceError>(opened.held()->0),
        closed.held() is None,
        read == Err::<(), InterfaceError>(InterfaceError::NotOpenIFace),
{
}

/// The four operations every transport offers.
pub trait InterfaceTrait {
    fn open(&mut self) -> Result<(), String>;

    fn close(&mut self) -> Result<(), String>;

    fn read(&mut self, buffer: &mut [u8]) -> Result<u32, String>;

    fn write(&mut self, buffer: &[u8]) -> Result<(), String>;
}

/// Owns a collection of interfaces and opens or closes them all at once.
pub trait IsInterfaceManager<I: InterfaceTrait> {
    fn add_interface(&mut self, interface: I) -> Result<(), String>;

    fn remove_interface(&mut self, index: u32) -> Result<(), String>;

    fn get_interface(&self, index: u32) -> Option<&I>;

    fn get_interface_count(&self) -> u32;

    fn open_all_interfaces(&mut self) -> Result<(), String>;

    fn close_all_interfaces(&mut self) -> Result<(), String>;
}

/// How many of `outcomes` are failures.
pub open spec fn failure_count(outcomes: Seq<Result<(), String>>) -> nat
    decreases outcomes.len(),
{
    if outcomes.len() == 0 {
        0
    } else {
        failure_count(outcomes.drop_last()) + if outcomes.last() is Err {
            1nat
        } else {
            0nat
        }
    }
}

/// The messages of the failures among `outcomes`, in order, joined by "; ".
pub open spec fn failure_text(outcomes: Seq<Result<(), String>>) -> Seq<char>
    decreases outcomes.len(),
{
    if outcomes.len() == 0 {
        Seq::empty()
    } else {
        let prev = failure_text(outcomes.drop_last());
        match outcomes.last() {
            Ok(_) => prev,
            Err(m) => if failure_count(outcomes.drop_last()) > 0 {
                prev + "; "@ + m@
            } else {
                m@
            },
        }
    }
}

/// One result for many operations: success when every one succeeded, else
/// the messages of all failures.
pub fn aggregate_outcomes(outcomes: &Vec<Result<(), String>>) -> (r: Result<(), String>)
    ensures
        failure_count(outcomes@) == 0 ==> r is Ok,
        failure_count(outcomes@) > 0 ==> (r matches Err(m) && m@ == failure_text(outcomes@)),
{
    let mut text = String::new();
    let mut failed = false;
    let mut i: usize = 0;
    while i < outcomes.len()
        invariant
            i <= outcomes@.len(),
            failed == (failure_count(outcomes@.take(i as int)) > 0),
            text@ == failure_text(outcomes@.take(i as int)),
            !failed ==> text@.len() == 0,
        decreases outcomes@.len() - i,
    {
        assert(outcomes@.take(i + 1).drop_last() =~= outcomes@.take(i as int));
        match &outcomes[i] {
            Ok(()) => {},
            Err(m) => {
                let ghost prev = text@;
                if failed {
                    text.append("; ");
                }
                text.append(m.as_str());
                failed = true;
                proof {
                    assert(outcomes@.take(i + 1).last() == outcomes@[i as int]);
                    if failure_count(outcomes@.take(i as int)) > 0 {
                        assert(text@ =~= prev + "; "@ + m@);
                    } else {
                        assert(text@ =~= m@);
                    }
                }
            },
        }
        i += 1;
    }
    assert(outcomes@.take(outcomes@.len() as int) =~= outcomes@);
    if failed {
        Err(text)
    } else {
        Ok(())
    }
}

/// Interfaces kept in the order they were added.
pub struct InterfaceManager<I: InterfaceTrait> {
    interfaces: Vec<I>,
}

impl<I: InterfaceTrait> InterfaceManager<I> {
    pub closed spec fn interfaces_spec(&self) -> Seq<I> {
        self.interfaces@
    }

    pub fn new() -> (r: Self)
        ensures
            r.interfaces_spec() == Seq::<I>::empty(),
    {
        InterfaceManager { interfaces: Vec::new() }
    }
}

impl<I: InterfaceTrait> IsInterfaceManager<I> for InterfaceManager<I> {
    /// Appends `interface`; refused once `u32::MAX` interfaces are held.
    fn add_interface(&mut self, interface: I) -> (r: Result<(), String>)
        ensures
            old(self).interfaces_spec().len() < u32::MAX ==> r is Ok && final(self).interfaces_spec()
                == old(self).interfaces_spec().push(interface),
            old(self).interfaces_spec().len() >= u32::MAX ==> r is Err && final(self).interfaces_spec()
                == old(self).interfaces_spec(),
    {
        if self.interfaces.len() >= 0xffff_ffff {
            return Err(String::from_str("too many interfaces"));
        }
        self.interfaces.push(interface);
        Ok(())
    }

    /// Removes the interface at `index`; refused when there is none.
    fn remove_interface(&mut self, index: u32) -> (r: Result<(), String>)
        ensures
            index < old(self).interfaces_spec().len() ==> r is Ok && final(self).interfaces_spec()
                == old(self).interfaces_spec().remove(index as int),
            index >= old(self).interfaces_spec().len() ==> r is Err && final(self).interfaces_spec()
                == old(self).interfaces_spec(),
    {
        if index as usize >= self.interfaces.len() {
            return Err(String::from_str("no interface at this index"));
        }
        self.interfaces.remove(index as usize);
        Ok(())
    }

    fn get_interface(&self, index: u32) -> (r: Option<&I>)
        ensures
            r is Some <==> index < self.interfaces_spec().len(),
            r is Some ==> *r->0 == self.interfaces_spec()[index as int],
    {
        if (index as usize) < self.interfaces.len() {
            Some(&self.interfaces[index as usize])
        } else {
            None
        }
    }

    /// The number of interfaces, or `u32::MAX` if more are held.
    fn get_interface_count(&self) -> (r: u32)
        ensures
            r == if self.interfaces_spec().len() < u32::MAX {
                self.interfaces_spec().len()
            } else {
                u32::MAX as nat
            },
    {
        if self.interfaces.len() < 0xffff_ffff {
            self.interfaces.len() as u32
        } else {
            0xffff_ffff
        }
    }

    /// Opens every interface, going on past failures, and reports them all.
    fn open_all_interfaces(&mut self) -> (r: Result<(), String>)
        ensures
            final(self).interfaces_spec().len() == old(self).interfaces_spec().len(),
            old(self).interfaces_spec().len() == 0 ==> r is Ok,
    {
        let mut outcomes: Vec<Result<(), String>> = Vec::new();
        let mut i: usize = 0;
        while i < self.interfaces.len()
            invariant
                i <= self.interfaces@.len(),
                self.interfaces@.len() == old(self).interfaces@.len(),
                outcomes@.len() == i,
            decreases self.interfaces@.len() - i,
        {
            let mut interface = self.interfaces.remove(i);
            outcomes.push(interface.open());
            self.interfaces.insert(i, interface);
            i += 1;
        }
        assert(outcomes@.len() == 0 ==> failure_count(outcomes@) == 0);
        aggregate_outcomes(&outcomes)
    }

    /// Closes every interface, going on past failures, and reports them all.
    fn close_all_interfaces(&mut self) -> (r: Result<(), String>)
        ensures
            final(self).interfaces_spec().len() == old(self).interfaces_spec().len(),
            old(self).interfaces_spec().len() == 0 ==> r is Ok,
    {
        let mut outcomes: Vec<Result<(), String>> = Vec::new();
        let mut i: usize = 0;
        while i < self.interfaces.len()
            invariant
                i <= self.interfaces@.len(),
                self.interfaces@.len() == old(self).interfaces@.len(),
                outcomes@.len() == i,
            decreases self.interfaces@.len() - i,
        {
            let mut interface = self.interfaces.remove(i);
            outcomes.push(interface.close());
            self.interfaces.insert(i, interface);
            i += 1;
        }
        assert(outcomes@.len() == 0 ==> failure_count(outcomes@) == 0);
        aggregate_outcomes(&outcomes)
    }
}

} // verus!
