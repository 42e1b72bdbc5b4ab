use iznik_kit::metrics::{clock, cpu_time, resident_memory, MetricsError, Reply};

fn silent_failure() -> Reply {
    Reply { succeeded: false, stdout: String::new(), stderr: String::new() }
}

#[test]
fn metrics_unknown_process_is_an_error_naming_it() {
    let unknown = u32::MAX;
    let memory = resident_memory(unknown, &silent_failure()).expect_err("no such process");
    assert!(matches!(memory, MetricsError::Read { process_id, .. } if process_id == unknown));
    assert!(memory.message().contains(&unknown.to_string()), "{}", memory.message());
    let time = cpu_time(unknown, &silent_failure()).expect_err("no such process");
    assert!(time.message().contains(&unknown.to_string()), "{}", time.message());
}

#[test]
fn metrics_resident_memory_is_kibibytes_times_a_kibibyte() {
    let reply = Reply { succeeded: true, stdout: "  2048\n".to_owned(), stderr: String::new() };
    assert_eq!(resident_memory(7, &reply).expect("a number"), 2048 * 1024);
}

#[test]
fn metrics_resident_memory_that_is_not_a_number_is_a_parse_error() {
    let reply = Reply { succeeded: true, stdout: "lots".to_owned(), stderr: String::new() };
    let error = resident_memory(7, &reply).expect_err("not a number");
    assert!(matches!(error, MetricsError::Parse { process_id: 7, .. }));
}

#[test]
fn metrics_a_clock_reads_hours_minutes_seconds_and_a_fraction() {
    let characters: Vec<char> = "01:02:03.5".chars().collect();
    let time = clock(1, &characters).expect("a clock");
    assert_eq!(time.seconds, 3600 + 2 * 60 + 3);
    assert_eq!(time.nanoseconds, 500_000_000);
    let reply = Reply { succeeded: true, stdout: "00:00:07\n".to_owned(), stderr: String::new() };
    let spent = cpu_time(1, &reply).expect("a clock");
    assert_eq!((spent.seconds, spent.nanoseconds), (7, 0));
}

#[test]
fn metrics_a_clock_with_a_field_too_many_is_refused() {
    let characters: Vec<char> = "1:2:3:4".chars().collect();
    let error = clock(1, &characters).expect_err("too many fields");
    assert!(matches!(error, MetricsError::Parse { process_id: 1, .. }));
}

#[test]
fn metrics_what_ps_said_on_standard_error_is_the_detail() {
    let reply = Reply { succeeded: false, stdout: String::new(), stderr: " error: bad pid \n".to_owned() };
    match resident_memory(9, &reply) {
        Err(MetricsError::Read { process_id: 9, detail }) => assert_eq!(detail, "error: bad pid"),
        other => panic!("unexpected {other:?}"),
    }
}

#[test]
fn metrics_a_fraction_longer_than_nanoseconds_is_refused() {
    let characters: Vec<char> = "0.1234567890".chars().collect();
    match clock(7, &characters) {
        Err(MetricsError::Parse { process_id: 7, detail }) => assert!(detail.ends_with("has no fraction of a second"), "{detail}"),
        other => panic!("unexpected {other:?}"),
    }
    let nine: Vec<char> = "0.123456789".chars().collect();
    let time = clock(7, &nine).expect("nine digits");
    assert_eq!((time.seconds, time.nanoseconds), (0, 123456789));
}
