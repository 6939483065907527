use display_brightness::operations::{device_to_read, read_result, BrightnessError, SetRun, SetStep};
use display_brightness::records::{device_record, device_records, DeviceProbe, DeviceRecord};
use display_brightness::source::keep_enumerated;

fn names(raw: &[&str]) -> Vec<Option<String>> {
    raw.iter().map(|s| Some(s.to_string())).collect()
}

fn two_displays() -> Vec<Option<String>> {
    names(&["\\\\.\\DISPLAY1", "\\\\.\\DISPLAY2"])
}

/// Runs a set, answering each write from `outcomes`; returns the devices
/// written and the result.
fn run_set(
    devices: &Vec<Option<String>>,
    query: &str,
    outcomes: &[Result<(), &str>],
) -> (Vec<usize>, Result<(), BrightnessError>) {
    let mut written = Vec::new();
    let mut run = match SetRun::start(devices, query) {
        Ok(run) => run,
        Err(e) => return (written, Err(e)),
    };
    loop {
        match run.next_step() {
            SetStep::Apply(d) => {
                let outcome = outcomes[written.len()].map_err(|e| e.to_string());
                written.push(d);
                run.record(outcome);
            }
            SetStep::Finished(r) => return (written, r),
        }
    }
}

#[test]
fn get_reads_first_matching_display() {
    let devices = two_displays();
    assert_eq!(device_to_read(&devices, "DISPLAY"), Ok(0));
    assert_eq!(device_to_read(&devices, "DISPLAY2"), Ok(1));
    assert_eq!(device_to_read(&devices, "\\\\.\\DISPLAY2"), Ok(1));
}

#[test]
fn get_without_match_is_not_found() {
    let devices = two_displays();
    assert_eq!(device_to_read(&devices, "display"), Err(BrightnessError::NotFound));
    assert_eq!(device_to_read(&Vec::new(), ""), Err(BrightnessError::NotFound));
}

#[test]
fn get_surfaces_read_failure() {
    assert_eq!(read_result(Ok(42)), Ok(42));
    assert_eq!(
        read_result(Err("I/O error".to_string())),
        Err(BrightnessError::OperationFailed("I/O error".to_string()))
    );
}

#[test]
fn error_messages() {
    assert_eq!(BrightnessError::NotFound.message(), "No matching display found.");
    assert_eq!(BrightnessError::OperationFailed("boom".to_string()).message(), "boom");
}

#[test]
fn set_broadcasts_to_every_match() {
    let devices = two_displays();
    assert_eq!(run_set(&devices, "DISPLAY", &[Ok(()), Ok(())]), (vec![0, 1], Ok(())));
    assert_eq!(run_set(&devices, "DISPLAY1", &[Ok(())]), (vec![0], Ok(())));
}

#[test]
fn set_without_match_is_not_found() {
    let devices = two_displays();
    assert_eq!(run_set(&devices, "HDMI", &[]), (vec![], Err(BrightnessError::NotFound)));
}

#[test]
fn set_stops_at_first_failure() {
    let devices = names(&["eDP-1", "DP-1", "DP-2"]);
    let (written, result) = run_set(&devices, "P-", &[Ok(()), Err("denied"), Ok(())]);
    assert_eq!(written, vec![0, 1]);
    assert_eq!(
        result,
        Err(BrightnessError::OperationFailed("Failed to set brightness: denied".to_string()))
    );
}

#[test]
fn set_first_write_failing_writes_nothing_else() {
    let devices = two_displays();
    let (written, result) = run_set(&devices, "DISPLAY", &[Err("gone"), Ok(())]);
    assert_eq!(written, vec![0]);
    assert_eq!(result.unwrap_err().message(), "Failed to set brightness: gone");
}

#[test]
fn record_normalises_and_keeps_fields() {
    let probe = DeviceProbe {
        device_name: Ok("\\\\.\\DISPLAY1".to_string()),
        display_name: Ok(Some("Built-in Display".to_string())),
        brightness: Ok(70),
    };
    assert_eq!(
        device_record(&probe),
        DeviceRecord {
            device_name: "//./DISPLAY1".to_string(),
            friendly_name: Some("Built-in Display".to_string()),
            current_brightness: Some(70),
        }
    );
}

#[test]
fn record_falls_back_on_failures() {
    let probe = DeviceProbe {
        device_name: Err("no name".to_string()),
        display_name: Err("no description".to_string()),
        brightness: Err("no reading".to_string()),
    };
    assert_eq!(
        device_record(&probe),
        DeviceRecord {
            device_name: "Unknown Device".to_string(),
            friendly_name: Some("Unknown Device".to_string()),
            current_brightness: None,
        }
    );
    let probe = DeviceProbe {
        device_name: Ok("intel_backlight".to_string()),
        display_name: Ok(None),
        brightness: Ok(0),
    };
    assert_eq!(device_record(&probe).friendly_name, None);
}

#[test]
fn listing_of_no_devices_is_empty() {
    assert_eq!(device_records(&Vec::new()), Vec::<DeviceRecord>::new());
}

#[test]
fn listing_keeps_devices_whose_reads_all_fail() {
    let probes = vec![
        DeviceProbe {
            device_name: Ok("\\\\.\\DISPLAY1".to_string()),
            display_name: Ok(None),
            brightness: Err("unsupported".to_string()),
        },
        DeviceProbe {
            device_name: Ok("\\\\.\\DISPLAY2".to_string()),
            display_name: Ok(None),
            brightness: Err("unsupported".to_string()),
        },
    ];
    let records = device_records(&probes);
    assert_eq!(records.len(), 2);
    assert_eq!(records[0].device_name, "//./DISPLAY1");
    assert_eq!(records[1].device_name, "//./DISPLAY2");
    assert!(records.iter().all(|r| r.current_brightness.is_none()));
}

#[test]
fn failed_enumerations_are_skipped() {
    let attempts: Vec<Result<u32, String>> =
        vec![Ok(1), Err("gone".to_string()), Ok(3), Err("busy".to_string())];
    assert_eq!(keep_enumerated(attempts), vec![1, 3]);
    let none: Vec<Result<u32, String>> = vec![Err("gone".to_string())];
    assert_eq!(keep_enumerated(none), Vec::<u32>::new());
}
