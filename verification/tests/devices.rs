use clusterit::destination::Destination;
use clusterit::device::{
    after_password, auth_request, AuthRequest, Authentication, Device, ExecuterState, PasswordStep,
};
use clusterit::error::Error;
use clusterit::state::{ClusteritError, ClusteritErrorKind, Clusterit, State};

fn dest(s: &str) -> Destination {
    Destination::from_str(s).unwrap()
}

#[test]
fn executer_state_starts_at_step_zero() {
    assert_eq!(ExecuterState::default().step, 0);
}

#[test]
fn state_finds_first_device_by_hostname() {
    let mut state = State::new("state.json".to_string(), vec![]);
    assert!(state.get_device(&dest("a")).is_none());
    state.add_device(Device::new(dest("u1@a:1"), None, ExecuterState::default()));
    state.add_device(Device::new(dest("u2@b:2"), None, ExecuterState::default()));
    state.add_device(Device::new(dest("u3@a:3"), None, ExecuterState::default()));
    assert_eq!(state.devices().len(), 3);
    let found = state.get_device(&dest("x@a:9")).unwrap();
    assert_eq!(found.destination.username, "u1");
    found.record_authentication(Authentication::Password("pw".into()));
    assert!(state.devices()[0].authentication.is_some());
    assert!(state.devices()[2].authentication.is_none());
    assert!(state.get_device(&dest("c")).is_none());
    assert_eq!(state.path(), "state.json");
    let c = Clusterit { state };
    assert_eq!(c.devices().len(), 3);
}

#[test]
fn device_saved_authentication() {
    let mut d = Device::new(dest("h"), None, ExecuterState::default());
    assert!(d.saved_authentication().is_none());
    d.record_authentication(Authentication::Keys { public_key: "p".into(), private_key: "k".into() });
    match d.saved_authentication() {
        Some(Authentication::Keys { public_key, .. }) => assert_eq!(public_key, "p"),
        _ => panic!("expected saved keys"),
    }
}

#[test]
fn auth_requests_use_destination_user() {
    let d = dest("bob@h");
    match auth_request(&d, &Authentication::Password("s3".into())) {
        AuthRequest::Password { username, password } => {
            assert_eq!(username, "bob");
            assert_eq!(password, "s3");
        }
        _ => panic!("expected a password request"),
    }
    match auth_request(&d, &Authentication::Keys { public_key: "P".into(), private_key: "K".into() }) {
        AuthRequest::PublicKey { username, public_key, private_key } => {
            assert_eq!(username, "bob");
            assert_eq!(public_key, "P");
            assert_eq!(private_key, "K");
        }
        _ => panic!("expected a key request"),
    }
}

#[test]
fn clusterit_error_messages() {
    let e = ClusteritError::new(ClusteritErrorKind::Generic, "boom".into());
    assert_eq!(e.message(), "Something went wrong: boom");
    let e = ClusteritError::from_parse_error(Error::parse_error(3, "bad".into()));
    assert_eq!(e.kind, ClusteritErrorKind::ParseError);
    assert_eq!(e.message(), "Failed to parse: [Line 3]: bad");
    let e = ClusteritError::from_connection_error(clusterit::destination::ConnectionError::Other("no"));
    assert_eq!(e.message(), "Something went wrong: no");
    let io = Error::io_error(std::io::ErrorKind::InvalidInput, "no file".into());
    assert_eq!(io.message(), "no file");
}

#[test]
fn password_attempt_decisions() {
    assert_eq!(after_password(false, false), PasswordStep::AskAgain);
    assert_eq!(after_password(false, true), PasswordStep::AskAgain);
    assert_eq!(after_password(true, true), PasswordStep::Accept);
    assert_eq!(after_password(true, false), PasswordStep::GiveUp);
}
