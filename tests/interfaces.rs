use grade_p::interfaces::{
    aggregate_outcomes, multicast_group, BaseInterface, Endpoint, InterfaceError, InterfaceManager,
    InterfaceMode, InterfaceProtocol, InterfaceStatus, InterfaceTrait, InterfaceType, IpAddress,
    IsInterfaceManager, LogicalInterface, PhysInterface,
};
use grade_p::log::LogLevel;

fn base(mode: InterfaceMode) -> BaseInterface {
    BaseInterface::new(
        "sensor".to_string(),
        "test sensor".to_string(),
        InterfaceType::new(PhysInterface::NoPhysical, LogicalInterface::File),
        mode,
        InterfaceProtocol::Raw,
        None,
    )
}

fn endpoint(mode: InterfaceMode) -> Endpoint<String> {
    Endpoint::new(base(mode))
}

fn opened(mode: InterfaceMode) -> Endpoint<String> {
    let mut e = endpoint(mode);
    assert_eq!(e.begin_open(), Ok(()));
    e.complete_open("handle".to_string());
    e
}

#[test]
fn error_texts() {
    assert_eq!(InterfaceError::Timeout.to_string(), "Timeout");
    assert_eq!(InterfaceError::FramingError.to_string(), "Framing Error");
    assert_eq!(InterfaceError::WriteOnReadOnly.to_string(), "Write on Read Only");
    assert_eq!(InterfaceError::ReadOnWriteOnly.to_string(), "Read on Write Only");
    assert_eq!(InterfaceError::NotOpenIFace.to_string(), "Interface not open");
    assert_eq!(InterfaceError::AlreadyOpenIFace.to_string(), "Interface already open");
    assert_eq!(InterfaceError::NotValidSocketAddr.to_string(), "Not valid socket address");
    assert_eq!(InterfaceError::GenericError.to_string(), "Unpredictable error");
}

#[test]
fn new_base_interface_is_disconnected_without_error() {
    let b = base(InterfaceMode::ReadWrite);
    assert_eq!(b.get_name(), "sensor");
    assert_eq!(b.get_description(), "test sensor");
    assert_eq!(b.get_status(), InterfaceStatus::Disconnected);
    assert_eq!(b.get_mode(), InterfaceMode::ReadWrite);
    assert_eq!(b.get_protocol(), InterfaceProtocol::Raw);
    assert_eq!(b.get_type().logic, LogicalInterface::File);
    assert_eq!(b.get_error(), None);
    assert_eq!(b.get_event(), None);
    assert!(!b.is_log_interface());
}

#[test]
fn read_and_write_before_open_fail_with_not_open() {
    let mut e = endpoint(InterfaceMode::ReadWrite);
    assert_eq!(e.begin_read(), Err(InterfaceError::NotOpenIFace));
    assert_eq!(e.begin_write(), Err(InterfaceError::NotOpenIFace));
    assert!(e.resource().is_none());
    assert_eq!(e.base().get_error(), Some(InterfaceError::NotOpenIFace));
}

#[test]
fn open_twice_fails_and_keeps_first_resource() {
    let mut e = opened(InterfaceMode::ReadWrite);
    assert_eq!(e.base().get_status(), InterfaceStatus::Connected);
    assert_eq!(e.begin_open(), Err(InterfaceError::AlreadyOpenIFace));
    assert_eq!(e.resource().map(|s| s.as_str()), Some("handle"));
    assert_eq!(e.base().get_status(), InterfaceStatus::Connected);
    assert_eq!(e.base().get_error(), Some(InterfaceError::AlreadyOpenIFace));
}

#[test]
fn mode_is_enforced_in_every_state() {
    let mut r = endpoint(InterfaceMode::Read);
    assert_eq!(r.begin_write(), Err(InterfaceError::ReadOnWriteOnly));
    let mut r = opened(InterfaceMode::Read);
    assert_eq!(r.begin_write(), Err(InterfaceError::ReadOnWriteOnly));
    assert_eq!(r.begin_read(), Ok(()));
    let mut w = endpoint(InterfaceMode::Write);
    assert_eq!(w.begin_read(), Err(InterfaceError::WriteOnReadOnly));
    let mut w = opened(InterfaceMode::Write);
    assert_eq!(w.begin_read(), Err(InterfaceError::WriteOnReadOnly));
    assert_eq!(w.begin_write(), Ok(()));
}

#[test]
fn successful_check_clears_last_error() {
    let mut e = opened(InterfaceMode::ReadWrite);
    e.fail(InterfaceError::Timeout);
    assert_eq!(e.base().get_error(), Some(InterfaceError::Timeout));
    assert_eq!(e.begin_read(), Ok(()));
    assert_eq!(e.base().get_error(), None);
}

#[test]
fn close_hands_back_resource_then_io_fails() {
    let mut e = opened(InterfaceMode::ReadWrite);
    assert_eq!(e.close(), Ok("handle".to_string()));
    assert_eq!(e.base().get_status(), InterfaceStatus::Disconnected);
    assert!(e.resource().is_none());
    assert_eq!(e.begin_read(), Err(InterfaceError::NotOpenIFace));
    assert_eq!(e.close(), Err(InterfaceError::NotOpenIFace));
    assert_eq!(e.begin_open(), Ok(()));
}

#[test]
fn failed_open_keeps_status() {
    let mut e = endpoint(InterfaceMode::Read);
    assert_eq!(e.begin_open(), Ok(()));
    assert_eq!(e.fail(InterfaceError::GenericError), InterfaceError::GenericError);
    assert_eq!(e.base().get_status(), InterfaceStatus::Disconnected);
    assert_eq!(e.base().get_error(), Some(InterfaceError::GenericError));
}

#[test]
fn remote_address_checks() {
    let mut e: Endpoint<u8> = Endpoint::new(base(InterfaceMode::ReadWrite));
    let a = IpAddress::V4(10, 0, 0, 1);
    assert_eq!(e.check_remote(Some(a)), Ok(a));
    assert_eq!(e.check_remote(None), Err(InterfaceError::NotValidSocketAddr));
    let mut r: Endpoint<u8> = Endpoint::new(base(InterfaceMode::Read));
    assert_eq!(r.check_remote(Some(a)), Err(InterfaceError::ReadOnWriteOnly));
}

#[test]
fn multicast_addresses_are_recognised() {
    let m4 = IpAddress::V4(239, 1, 2, 3);
    assert!(m4.is_multicast());
    assert!(IpAddress::V4(224, 0, 0, 1).is_multicast());
    assert!(!IpAddress::V4(223, 255, 255, 255).is_multicast());
    assert!(!IpAddress::V4(240, 0, 0, 1).is_multicast());
    let m6 = IpAddress::V6(0xff02, 0, 0, 0, 0, 0, 0, 1);
    assert!(m6.is_multicast());
    assert!(!IpAddress::V6(0xfe80, 0, 0, 0, 0, 0, 0, 1).is_multicast());
    assert_eq!(multicast_group(Some(m4)), Some(m4));
    assert_eq!(multicast_group(Some(m6)), Some(m6));
    assert_eq!(multicast_group(Some(IpAddress::V4(10, 0, 0, 1))), None);
    assert_eq!(multicast_group(None), None);
}

#[test]
fn log_error_reports_last_error_with_name() {
    let mut b = base(InterfaceMode::Read);
    assert!(b.log_error().is_none());
    b.set_error(InterfaceError::ParityError);
    let entry = b.log_error().unwrap();
    assert_eq!(entry.level, LogLevel::ERR);
    assert_eq!(entry.sender, "interface:sensor");
    assert_eq!(entry.message, "Parity Error");
}

#[test]
fn logging_sink_reports_nothing() {
    let mut b = BaseInterface::new(
        "log".to_string(),
        "".to_string(),
        InterfaceType::new(PhysInterface::NoPhysical, LogicalInterface::Log),
        InterfaceMode::Write,
        InterfaceProtocol::Raw,
        Some(true),
    );
    assert!(b.is_log_interface());
    b.set_error(InterfaceError::GenericError);
    assert!(b.log_error().is_none());
}

#[test]
fn aggregate_outcomes_joins_failures() {
    assert_eq!(aggregate_outcomes(&vec![]), Ok(()));
    assert_eq!(aggregate_outcomes(&vec![Ok(()), Ok(())]), Ok(()));
    assert_eq!(
        aggregate_outcomes(&vec![Ok(()), Err("a".to_string()), Ok(()), Err("b".to_string())]),
        Err("a; b".to_string())
    );
    assert_eq!(aggregate_outcomes(&vec![Err("only".to_string())]), Err("only".to_string()));
}

struct Fake {
    name: &'static str,
    fail: bool,
    open: bool,
}

impl InterfaceTrait for Fake {
    fn open(&mut self) -> Result<(), String> {
        if self.fail {
            return Err(format!("{} cannot open", self.name));
        }
        self.open = true;
        Ok(())
    }

    fn close(&mut self) -> Result<(), String> {
        if !self.open {
            return Err(format!("{} not open", self.name));
        }
        self.open = false;
        Ok(())
    }

    fn read(&mut self, _buffer: &mut [u8]) -> Result<u32, String> {
        Ok(0)
    }

    fn write(&mut self, _buffer: &[u8]) -> Result<(), String> {
        Ok(())
    }
}

#[test]
fn manager_opens_and_closes_all_and_reports_every_failure() {
    let mut m = InterfaceManager::new();
    m.add_interface(Fake { name: "a", fail: false, open: false }).unwrap();
    m.add_interface(Fake { name: "b", fail: true, open: false }).unwrap();
    m.add_interface(Fake { name: "c", fail: true, open: false }).unwrap();
    assert_eq!(m.get_interface_count(), 3);
    assert_eq!(m.open_all_interfaces(), Err("b cannot open; c cannot open".to_string()));
    assert!(m.get_interface(0).unwrap().open);
    assert_eq!(m.close_all_interfaces(), Err("b not open; c not open".to_string()));
    assert!(!m.get_interface(0).unwrap().open);
    assert!(m.remove_interface(1).is_ok());
    assert_eq!(m.get_interface(1).unwrap().name, "c");
    assert!(m.remove_interface(5).is_err());
    assert!(m.get_interface(2).is_none());
    assert_eq!(m.get_interface_count(), 2);
}

#[test]
fn empty_manager_opens_and_closes_successfully() {
    let mut m: InterfaceManager<Fake> = InterfaceManager::new();
    assert_eq!(m.get_interface_count(), 0);
    assert_eq!(m.open_all_interfaces(), Ok(()));
    assert_eq!(m.close_all_interfaces(), Ok(()));
}
