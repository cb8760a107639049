use scheduler_extension::error::SchedulerError;

#[test]
fn status_zero_is_success() {
    assert_eq!(SchedulerError::from_status_code(0), Ok(()));
}

#[test]
fn known_status_codes_map_to_their_kinds() {
    assert_eq!(SchedulerError::from_status_code(1), Err(SchedulerError::FailedToSchedule));
    assert_eq!(SchedulerError::from_status_code(2), Err(SchedulerError::NotFound));
    assert_eq!(SchedulerError::from_status_code(3), Err(SchedulerError::TargetBlockNumberInPast));
    assert_eq!(SchedulerError::from_status_code(4), Err(SchedulerError::RescheduleNoChange));
    assert_eq!(SchedulerError::from_status_code(5), Err(SchedulerError::Named));
    assert_eq!(SchedulerError::from_status_code(98), Err(SchedulerError::OriginCannotBeCaller));
    assert_eq!(SchedulerError::from_status_code(99), Err(SchedulerError::RuntimeError));
}

#[test]
fn other_status_codes_are_unknown() {
    assert_eq!(SchedulerError::from_status_code(6), Err(SchedulerError::UnknownStatusCode));
    assert_eq!(SchedulerError::from_status_code(97), Err(SchedulerError::UnknownStatusCode));
    assert_eq!(SchedulerError::from_status_code(100), Err(SchedulerError::UnknownStatusCode));
    assert_eq!(SchedulerError::from_status_code(u32::MAX), Err(SchedulerError::UnknownStatusCode));
}

#[test]
fn each_kind_has_its_fixed_code() {
    assert_eq!(SchedulerError::FailedToSchedule.status_code(), Some(1));
    assert_eq!(SchedulerError::NotFound.status_code(), Some(2));
    assert_eq!(SchedulerError::TargetBlockNumberInPast.status_code(), Some(3));
    assert_eq!(SchedulerError::RescheduleNoChange.status_code(), Some(4));
    assert_eq!(SchedulerError::Named.status_code(), Some(5));
    assert_eq!(SchedulerError::OriginCannotBeCaller.status_code(), Some(98));
    assert_eq!(SchedulerError::RuntimeError.status_code(), Some(99));
    assert_eq!(SchedulerError::UnknownStatusCode.status_code(), None);
    assert_eq!(SchedulerError::InvalidScaleEncoding.status_code(), None);
}

#[test]
fn status_code_round_trips_for_every_code() {
    for code in 0u32..=200 {
        match SchedulerError::from_status_code(code) {
            Ok(()) => assert_eq!(code, 0),
            Err(SchedulerError::UnknownStatusCode) => {
                assert!(![0, 1, 2, 3, 4, 5, 98, 99].contains(&code))
            }
            Err(kind) => assert_eq!(kind.status_code(), Some(code)),
        }
    }
}

#[test]
fn codec_failure_becomes_encoding_error() {
    let failure = parity_scale_codec::Error::from("bad input");
    assert_eq!(SchedulerError::from(failure), SchedulerError::InvalidScaleEncoding);
}
