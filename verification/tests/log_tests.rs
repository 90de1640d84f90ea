use log_viewer::entry::{parse_line, LogEntry};
use log_viewer::loaded::{can_load, LoadedLog};
use log_viewer::text::chars_of;

fn entry(line: &str) -> Option<LogEntry> {
    parse_line(&chars_of(line))
}

#[test]
fn reads_each_type() {
    match entry("[1.5] speed | Number : 3.25").unwrap() {
        LogEntry::Number { time, name, data } => {
            assert_eq!(time.as_str(), "1.5");
            assert_eq!(name, "speed");
            assert_eq!(data.as_str(), "3.25");
        }
        _ => panic!("not a number"),
    }
    match entry("[2] speed | Number : fast").unwrap() {
        LogEntry::Number { data, .. } => assert_eq!(data.as_str(), "0"),
        _ => panic!("not a number"),
    }
    match entry("[0] cycle | CycleNumber : 42").unwrap() {
        LogEntry::CycleNumber { data, .. } => assert_eq!(data, 42),
        _ => panic!("not a cycle"),
    }
    match entry("[0] msg | String : hello : world").unwrap() {
        LogEntry::String { data, .. } => assert_eq!(data, "hello : world"),
        _ => panic!("not a string"),
    }
    match entry("[0] c | Color : -5").unwrap() {
        LogEntry::Color { data, .. } => assert_eq!(data, -5),
        _ => panic!("not a colour"),
    }
    match entry("[0] c | Color : blue").unwrap() {
        LogEntry::Color { data, .. } => assert_eq!(data, 0),
        _ => panic!("not a colour"),
    }
    match entry("[0] b | Bool : true").unwrap() {
        LogEntry::Bool { data, .. } => assert!(data),
        _ => panic!("not a bool"),
    }
    match entry("[0] b | Bool : TRUE").unwrap() {
        LogEntry::Bool { data, .. } => assert!(!data),
        _ => panic!("not a bool"),
    }
    match entry("[0] f | FieldState : a,ROBOT,1,0,0,0|b,MARKER,2,1,1,1").unwrap() {
        LogEntry::FieldState { data, .. } => assert_eq!(data.field_objects.len(), 2),
        _ => panic!("not a field state"),
    }
    match entry("[0] x | Weird | Type : payload").unwrap() {
        LogEntry::Unkown { data_type, name, data, .. } => {
            assert_eq!(data_type, "Weird | Type");
            assert_eq!(name, "x");
            assert_eq!(data, "payload");
        }
        _ => panic!("not unknown"),
    }
}

#[test]
fn rejects_malformed_lines() {
    assert!(entry("").is_none());
    assert!(entry("no separators").is_none());
    assert!(entry("[1] a | Number 5").is_none());
    assert!(entry("[1] a Number : 5").is_none());
    assert!(entry("[1]a | Number : 5").is_none());
    assert!(entry("[abc] a | Number : 5").is_none());
    assert!(entry("[ 1] a | Number : 5").is_none());
}

#[test]
fn bracket_taken_out_anywhere() {
    match entry("1.0] a[b | String : x").unwrap() {
        LogEntry::String { time, name, .. } => {
            assert_eq!(time.as_str(), "1.0");
            assert_eq!(name, "ab");
        }
        _ => panic!("not a string"),
    }
}

#[test]
fn times_accept_float_forms() {
    for t in ["1e3", "-2.5", "inf", "NaN", ".5", "7."] {
        let line = format!("[{}] a | String : x", t);
        assert_eq!(entry(&line).unwrap().get_time().as_str(), t);
    }
}

#[test]
fn line_read_back_law_example() {
    let line = format!("[{}] {} | {} : {}", "12.75", "arm angle", "Number", "0.5");
    match entry(&line).unwrap() {
        LogEntry::Number { time, name, data } => {
            assert_eq!((time.as_str(), name.as_str(), data.as_str()), ("12.75", "arm angle", "0.5"));
        }
        _ => panic!("not a number"),
    }
}

const LOG: &str = "[0.0] speed | Number : 1\n\
garbage line\n\
[0.5] cycle | CycleNumber : 1\n\
[1.0] speed | Number : 2\n\
[1.5] mode | String : auto\n\
[2.0] speed | String : text\n\
[2.5] speed | Number : 3\n";

#[test]
fn load_keeps_records_in_order() {
    assert!(can_load(LOG));
    let log = LoadedLog::from_text(LOG);
    let names: Vec<(String, String)> = log
        .entries()
        .iter()
        .map(|e| (e.get_time().as_str().to_string(), e.get_name().clone()))
        .collect();
    assert_eq!(names.len(), 6);
    assert_eq!(names[0], ("0.0".to_string(), "speed".to_string()));
    assert_eq!(names[5], ("2.5".to_string(), "speed".to_string()));
}

#[test]
fn load_groups_by_name_and_type() {
    let log = LoadedLog::from_text(LOG);
    let groups = log.groups();
    assert_eq!(groups.len(), 4);
    let speed_numbers = groups
        .iter()
        .find(|g| g.name == "speed" && g.data_type == "Number")
        .unwrap();
    let times: Vec<&str> = speed_numbers.entries.iter().map(|e| e.get_time().as_str()).collect();
    assert_eq!(times, vec!["0.0", "1.0", "2.5"]);
    let speed_strings = groups
        .iter()
        .find(|g| g.name == "speed" && g.data_type == "String")
        .unwrap();
    assert_eq!(speed_strings.entries.len(), 1);
    let total: usize = groups.iter().map(|g| g.entries.len()).sum();
    assert_eq!(total, log.entries().len());
}

#[test]
fn bad_cycle_number_stops_the_load() {
    assert!(!can_load("[0] c | CycleNumber : many"));
    assert!(!can_load("[0] a | Number : 1\n[1] c | CycleNumber : -1"));
    assert!(can_load("[0] c | Weird : many\nnot a line | CycleNumber x"));
    assert!(can_load(""));
}

#[test]
fn log_concat_law_example() {
    let a = "[0] a | Number : 1\n[1] b | Bool : true";
    let b = "junk\n[2] c | String : x";
    let joined = format!("{}\n{}", a, b);
    let times = |s: &str| -> Vec<String> {
        LoadedLog::from_text(s)
            .entries()
            .iter()
            .map(|e| e.get_time().as_str().to_string())
            .collect()
    };
    let mut expected = times(a);
    expected.extend(times(b));
    assert_eq!(times(&joined), expected);
}

#[test]
fn data_type_text() {
    let e = entry("[0] b | Bool : false").unwrap();
    assert_eq!(e.get_data_type(), "Bool");
    let u = entry("[0] b | Other : false").unwrap();
    assert_eq!(u.get_data_type(), "Other");
}
