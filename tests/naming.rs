use display_brightness::friendly::{entry_matches, lookup_step, trim_nuls, DisplayEntry, LookupStep};
use display_brightness::matcher::{contains_chars, device_matches, matching_devices};
use display_brightness::normalize::{chars_of, normalize};

fn names(raw: &[&str]) -> Vec<Option<String>> {
    raw.iter().map(|s| Some(s.to_string())).collect()
}

fn wide(s: &str, width: usize) -> Vec<u16> {
    let mut v: Vec<u16> = s.encode_utf16().collect();
    v.resize(width, 0);
    v
}

#[test]
fn normalize_replaces_backslashes() {
    assert_eq!(normalize("\\\\.\\DISPLAY1"), "//./DISPLAY1");
    assert_eq!(normalize("\\\\.\\DISPLAY2"), "//./DISPLAY2");
    assert_eq!(normalize("no-separators"), "no-separators");
    assert_eq!(normalize(""), "");
    assert_eq!(normalize("a/b\\c"), "a/b/c");
}

#[test]
fn normalize_is_idempotent_and_removes_backslashes() {
    for s in ["\\\\.\\DISPLAY1", "intel_backlight", "\\", "//\\\\", "Ab\\ C"] {
        let once = normalize(s);
        assert_eq!(normalize(&once), once);
        assert!(!once.contains('\\'));
    }
}

#[test]
fn chars_of_keeps_order() {
    assert_eq!(chars_of("aé\\"), vec!['a', 'é', '\\']);
}

#[test]
fn contains_chars_finds_parts() {
    let hay = chars_of("//./DISPLAY1");
    assert!(contains_chars(&hay, &chars_of("DISPLAY")));
    assert!(contains_chars(&hay, &chars_of("")));
    assert!(contains_chars(&hay, &chars_of("//./DISPLAY1")));
    assert!(!contains_chars(&hay, &chars_of("DISPLAY2")));
    assert!(!contains_chars(&hay, &chars_of("//./DISPLAY10")));
}

#[test]
fn device_matching_is_normalised_containment() {
    assert!(device_matches("\\\\.\\DISPLAY1", "DISPLAY1"));
    assert!(device_matches("\\\\.\\DISPLAY1", "\\\\.\\DISPLAY1"));
    assert!(device_matches("\\\\.\\DISPLAY1", "//./DISPLAY1"));
    assert!(device_matches("\\\\.\\DISPLAY1", ".\\DISP"));
    assert!(!device_matches("\\\\.\\DISPLAY1", "display1"));
    assert!(!device_matches("\\\\.\\DISPLAY1", "DISPLAY2"));
}

#[test]
fn query_selects_first_or_both_displays() {
    let devices = names(&["\\\\.\\DISPLAY1", "\\\\.\\DISPLAY2"]);
    assert_eq!(matching_devices(&devices, "DISPLAY1"), vec![0]);
    assert_eq!(matching_devices(&devices, "DISPLAY"), vec![0, 1]);
    assert_eq!(matching_devices(&devices, "HDMI"), Vec::<usize>::new());
}

#[test]
fn unreadable_names_are_never_selected() {
    let devices = vec![None, Some("acpi_video0".to_string()), None];
    assert_eq!(matching_devices(&devices, ""), vec![1]);
    assert_eq!(matching_devices(&devices, "video"), vec![1]);
}

#[test]
fn trim_nuls_drops_only_trailing_padding() {
    assert_eq!(trim_nuls("Generic PnP Monitor\0\0\0"), "Generic PnP Monitor");
    assert_eq!(trim_nuls("a\0b\0"), "a\0b");
    assert_eq!(trim_nuls("\0\0"), "");
    assert_eq!(trim_nuls("plain"), "plain");
}

#[test]
fn display_entry_decodes_wide_fields() {
    let e = DisplayEntry::from_wide(&wide("\\\\.\\DISPLAY1", 32), &wide("Generic PnP Monitor", 128));
    assert_eq!(e.device_name, "\\\\.\\DISPLAY1");
    assert_eq!(e.description, "Generic PnP Monitor");
}

#[test]
fn entries_match_by_containment_either_way() {
    assert!(entry_matches("\\\\.\\DISPLAY1\\Monitor0", "\\\\.\\DISPLAY1"));
    assert!(entry_matches("\\\\.\\DISPLAY1", "\\\\.\\DISPLAY1\\Monitor0"));
    assert!(!entry_matches("\\\\.\\DISPLAY1", "\\\\.\\DISPLAY2"));
}

#[test]
fn lookup_takes_the_first_matching_entry() {
    let entry = |name: &str, desc: &str| DisplayEntry {
        device_name: name.to_string(),
        description: desc.to_string(),
    };
    let id = "\\\\.\\DISPLAY2";
    assert_eq!(lookup_step(id, 0, Some(entry("\\\\.\\DISPLAY1", "First"))), LookupStep::Query(1));
    assert_eq!(
        lookup_step(id, 1, Some(entry("\\\\.\\DISPLAY2\\Monitor0", "Dell U2720Q"))),
        LookupStep::Found("Dell U2720Q".to_string())
    );
}

#[test]
fn lookup_ends_absent_when_table_runs_out() {
    let id = "\\\\.\\DISPLAY9";
    let mut index: u32 = 0;
    let mut step = LookupStep::Query(0);
    while let LookupStep::Query(i) = step {
        assert_eq!(i, index);
        let entry = if i < 5 {
            Some(DisplayEntry::from_wide(
                &wide(&format!("\\\\.\\DISPLAY{}", i + 1), 32),
                &wide("Generic PnP Monitor", 128),
            ))
        } else {
            None
        };
        step = lookup_step(id, i, entry);
        index += 1;
    }
    assert_eq!(step, LookupStep::Absent);
    assert_eq!(index, 6);
}

#[test]
fn lookup_stops_at_end_of_index_space() {
    let e = DisplayEntry { device_name: "other".to_string(), description: "x".to_string() };
    assert_eq!(lookup_step("mine", u32::MAX, Some(e)), LookupStep::Absent);
}
