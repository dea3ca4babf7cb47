use command_rs::status::{ExitStatus, NO_CODE_SENTINEL};
use command_rs::Error;

#[test]
fn check_zero_is_ok() {
    command_rs::test_is_present();
    let s = ExitStatus::new(Some(0));
    assert_eq!(s.check(), Ok(()));
    assert_eq!(s.check_err(), Ok(()));
}

#[test]
fn check_nonzero_is_that_code() {
    let s = ExitStatus::new(Some(3));
    assert_eq!(s.check(), Err(3));
    assert_eq!(s.check_err(), Err(Error::StatusError(3)));
    let s = ExitStatus::new(Some(-7));
    assert_eq!(s.check(), Err(-7));
}

#[test]
fn check_no_code_is_sentinel() {
    let s = ExitStatus::new(None);
    assert_eq!(s.check(), Err(NO_CODE_SENTINEL));
    assert_eq!(s.check(), Err(-1));
    assert_eq!(s.check_err(), Err(Error::StatusError(-1)));
}
