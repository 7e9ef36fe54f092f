use ssh_agent_switcher::probe::{
    after_connect, after_stat, begin, is_socket_mode, RejectReason, StatError, Step,
};

#[test]
fn a_socket_mode_is_told_by_its_type_bits() {
    assert!(is_socket_mode(0o140755));
    assert!(is_socket_mode(0o140000));
    assert!(is_socket_mode(0o140600));
    assert!(!is_socket_mode(0o100644));
    assert!(!is_socket_mode(0o040755));
    assert!(!is_socket_mode(0o120777));
    assert!(!is_socket_mode(0o010644));
    assert!(!is_socket_mode(0o020620));
    assert!(!is_socket_mode(0o060660));
    assert!(!is_socket_mode(0));
    assert!(!is_socket_mode(0o777));
}

#[test]
fn a_name_of_neither_convention_is_rejected_at_once() {
    assert_eq!(begin("file-unknown"), Step::Reject(RejectReason::NameMismatch));
    assert_eq!(begin("unknown"), Step::Reject(RejectReason::NameMismatch));
    assert_eq!(begin(""), Step::Reject(RejectReason::NameMismatch));
}

#[test]
fn a_name_of_either_convention_is_looked_at() {
    assert_eq!(begin("agent.test"), Step::Stat);
    assert_eq!(begin("s.host.sshd.abc"), Step::Stat);
}

#[test]
fn a_failed_stat_rejects_with_its_kind() {
    assert_eq!(
        after_stat(Err(StatError::Vanished)),
        Step::Reject(RejectReason::StatFailed(StatError::Vanished))
    );
    assert_eq!(
        after_stat(Err(StatError::Other)),
        Step::Reject(RejectReason::StatFailed(StatError::Other))
    );
}

#[test]
fn what_is_no_socket_is_rejected_after_stat() {
    assert_eq!(after_stat(Ok(0o100644)), Step::Reject(RejectReason::NotASocket));
    assert_eq!(after_stat(Ok(0o040755)), Step::Reject(RejectReason::NotASocket));
}

#[test]
fn a_socket_is_connected_to_after_stat() {
    assert_eq!(after_stat(Ok(0o140600)), Step::Connect);
}

#[test]
fn a_failed_connection_rejects_with_the_error_number() {
    assert_eq!(after_connect(Err(111)), Step::Reject(RejectReason::ConnectFailed(111)));
    assert_eq!(after_connect(Err(2)), Step::Reject(RejectReason::ConnectFailed(2)));
}

#[test]
fn a_connection_is_accepted() {
    assert_eq!(after_connect(Ok(())), Step::Accept);
}
