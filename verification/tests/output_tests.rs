use command_rs::output::Output;
use command_rs::status::ExitStatus;
use command_rs::Error;

#[test]
fn output_foo_bar_capture() {
    let status = ExitStatus::new(Some(0));
    let stdout = b"foo bar\n".to_vec();
    let stderr: Vec<u8> = Vec::new();
    let out = Output::from_parts(status, Ok(stdout), Ok(stderr)).unwrap();
    assert_eq!(out.status.check(), Ok(()));
    assert_eq!(out.stdout.as_slice(), b"foo bar\n");
    assert_eq!(out.stderr.as_slice(), b"");
}

#[test]
fn output_large_buffers_kept_whole() {
    // Ten mebibytes on each stream come back exactly, with the exit code.
    let big = 10 * 1024 * 1024;
    let stdout = vec![0xABu8; big];
    let stderr = vec![0xCDu8; big];
    let out = Output::from_parts(ExitStatus::new(Some(0)), Ok(stdout), Ok(stderr)).unwrap();
    assert_eq!(out.stdout.len(), big);
    assert_eq!(out.stderr.len(), big);
    assert!(out.stdout.as_slice().iter().all(|b| *b == 0xAB));
    assert!(out.stderr.as_slice().iter().all(|b| *b == 0xCD));
    assert_eq!(out.status.code(), Some(0));
}

#[test]
fn output_nonzero_exit_is_not_an_error() {
    let out = Output::from_parts(ExitStatus::new(Some(3)), Ok(Vec::new()), Ok(Vec::new()))
        .unwrap();
    assert_eq!(out.status.check(), Err(3));
}

#[test]
fn output_read_errors_fail_fast() {
    let r = Output::from_parts(ExitStatus::new(Some(0)), Err(5), Ok(Vec::new()));
    assert_eq!(r.unwrap_err(), Error::KirunaError(5));
    let r = Output::from_parts(ExitStatus::new(Some(0)), Ok(Vec::new()), Err(6));
    assert_eq!(r.unwrap_err(), Error::KirunaError(6));
    // With both reads failed, exactly one error is surfaced.
    let r = Output::from_parts(ExitStatus::new(Some(0)), Err(5), Err(6));
    assert_eq!(r.unwrap_err(), Error::KirunaError(5));
}
