use iznik_kit::soak::commands::{cut_seen, machine, weighed};
use iznik_kit::soak::steps::{flooding_step, recovery_step};
use iznik_kit::soak::report::{grown, heard_more, minutes, poured, rendered, shown, Heard, Report, Sample};
use iznik_kit::soak::{alive, asked_for, attendance, counted, interval_for, judged, round_ended, weighing_due, weighing_kept, Attendance, SoakError};

fn sample(at: u64, bytes: u64) -> Sample {
    Sample { at, bytes }
}

fn healthy() -> Report {
    Report {
        machine: "linux, x86_64, 8 cores".to_owned(),
        duration: 3600,
        warmup: 600,
        rounds: 2,
        floods: 1,
        cuts: 2,
        streak: 0,
        drops: 2,
        churn: 2,
        heard: Heard { deliveries: 1, bytes: 198_894, screens: 1, expected: None, attached: Some(5) },
        client: vec![sample(600, 1000), sample(1200, 1000)],
        server: vec![sample(600, 2000), sample(1200, 2000)],
        churned: vec![sample(600, 3000), sample(1200, 3000)],
    }
}

fn arguments(held: &[&str]) -> Vec<String> {
    held.iter().map(|argument| argument.to_string()).collect()
}

#[test]
fn soak_a_flood_pours_its_digits_and_a_line_ending_each() {
    assert_eq!(poured(0), 0);
    assert_eq!(poured(9), 27);
    assert_eq!(poured(10), 31);
    assert_eq!(poured(30_000), 198_894);
}

#[test]
fn soak_growth_is_the_slope_of_the_best_fit_an_hour() {
    assert_eq!(grown(&[sample(0, 100), sample(3600, 200)], 0), Some(100));
    assert_eq!(grown(&[sample(0, 200), sample(3600, 100)], 0), Some(0));
    assert_eq!(grown(&[sample(0, 100), sample(60, 1_000_000), sample(3600, 200)], 600), None);
    assert_eq!(grown(&[sample(0, 100), sample(3600, 200)], 600), None);
    assert_eq!(grown(&[sample(10, 1), sample(10, 2)], 0), None);
}

#[test]
fn soak_samples_before_the_warmup_are_not_looked_at() {
    let late = [sample(700, 100), sample(4300, 300)];
    let early = [sample(0, 9_000_000), sample(300, 1), sample(700, 100), sample(4300, 300)];
    assert_eq!(grown(&late, 600), grown(&early, 600));
    assert_eq!(grown(&late, 600), Some(200));
}

#[test]
fn soak_a_long_series_is_shown_in_at_most_sixty_rows_ending_on_the_last() {
    let samples: Vec<Sample> = (0..120).map(|index| sample(index, index)).collect();
    let rows = shown(&samples);
    assert_eq!(rows.len(), 41);
    assert_eq!(rows[0], samples[0]);
    assert_eq!(rows[1], samples[3]);
    assert_eq!(rows.last(), samples.last());
    for length in [59, 60, 61, 62, 118, 119, 120, 121, 178, 179, 1000, 3601] {
        let series: Vec<Sample> = (0..length).map(|index| sample(index, index)).collect();
        let picked = shown(&series);
        assert!(picked.len() <= 60, "{length} samples gave {} rows", picked.len());
        assert_eq!(picked[0], series[0]);
        assert_eq!(picked.last(), series.last());
    }
    let exact: Vec<Sample> = (0..60).map(|index| sample(index, index)).collect();
    assert_eq!(shown(&exact), exact);
    let few = [sample(1, 1), sample(2, 2), sample(3, 3)];
    assert_eq!(shown(&few), few.to_vec());
    assert!(shown(&[]).is_empty());
}

#[test]
fn soak_deliveries_are_counted_and_screens_move_the_client() {
    let mut heard = Heard::default();
    heard_more(&mut heard, "output 0 4 0\noutput 3 8 1\n").expect("a whole stream");
    assert_eq!((heard.deliveries, heard.bytes, heard.expected), (2, 8, Some(8)));
    heard_more(&mut heard, "screen 8 0 0\noutput 20 4 0\n").expect("a screen moves the client");
    assert_eq!((heard.screens, heard.attached, heard.deliveries, heard.bytes), (1, Some(8), 3, 11));
    assert_eq!(
        heard_more(&mut heard, "output 5 4 0"),
        Err("the pane's stream jumped from 23 to 5, so this client's own accounting of what it has taken is broken".to_owned())
    );
}

#[test]
fn soak_a_detached_pane_or_a_bad_number_stops_the_reading() {
    let mut heard = Heard::default();
    assert_eq!(heard_more(&mut heard, "detached"), Err("the pane was detached, so the held client stopped listening".to_owned()));
    let mut other = Heard::default();
    assert_eq!(heard_more(&mut other, "output x 4 0"), Err("a delivery said a number that is not one: output x 4 0".to_owned()));
}

#[test]
fn soak_a_healthy_run_is_judged_a_pass() {
    assert!(judged(&healthy(), "", true).is_ok());
}

#[test]
fn soak_a_run_is_refused_for_what_it_did_not_prove() {
    let mut few = healthy();
    few.drops = 0;
    assert_eq!(
        judged(&few, "timed out", true).expect_err("too few rounds").message(),
        "only 0 of 2 rounds finished; the last to fail said: timed out"
    );
    assert_eq!(
        judged(&healthy(), "", false).expect_err("the client died").message(),
        "the held client was gone before the end, so what it heard is not the run"
    );
    let mut unweighed = healthy();
    unweighed.server = Vec::new();
    assert_eq!(judged(&unweighed, "", true).expect_err("a side unweighed").message(), "the daemon it watches was never weighed at all");
    let mut rescreened = healthy();
    rescreened.heard.screens = 2;
    assert!(judged(&rescreened, "", true).is_err());
}

#[test]
fn soak_a_side_that_grew_past_the_ceiling_is_named() {
    let mut grew = healthy();
    grew.churned = vec![sample(600, 0), sample(4200, 8 * 1024 * 1024)];
    match judged(&grew, "", true) {
        Err(SoakError::Grew { side, rate }) => {
            assert_eq!(side, "daemon it churns");
            assert_eq!(rate, 8 * 1024 * 1024);
        }
        other => panic!("expected growth, got {other:?}"),
    }
}

#[test]
fn soak_the_command_line_asks_for_minutes() {
    assert_eq!(asked_for(&arguments(&["soak"])).expect("defaults"), (21_600, 600));
    assert_eq!(asked_for(&arguments(&["soak", "--duration", "60", "--warmup", "10"])).expect("asked"), (3600, 600));
    assert_eq!(
        asked_for(&arguments(&["soak", "--warmup", "360"])).expect_err("nothing left").message(),
        "a warmup of 360 minutes leaves nothing of a soak of 360 to measure\nusage: xtask soak [--duration <minutes>] [--warmup <minutes>]"
    );
    assert!(matches!(asked_for(&arguments(&["soak", "--bogus", "1"])), Err(SoakError::Usage { .. })));
    assert!(matches!(asked_for(&arguments(&["soak", "--duration"])), Err(SoakError::Usage { .. })));
}

#[test]
fn soak_sampling_is_at_most_a_minute_apart_and_four_to_a_run() {
    assert_eq!(interval_for(21_600), 60);
    assert_eq!(interval_for(120), 30);
    assert_eq!(interval_for(0), 0);
    assert_eq!(minutes(125), 2);
    assert_eq!(weighing_due(10, 30, 60), None);
    assert_eq!(weighing_due(30, 30, 60), Some(90));
}

#[test]
fn soak_only_a_weighing_of_something_is_kept() {
    let mut series = Vec::new();
    assert!(!weighing_kept(&mut series, sample(60, 0)));
    assert!(weighing_kept(&mut series, sample(120, 4096)));
    assert_eq!(series, vec![sample(120, 4096)]);
    assert_eq!(weighed(" 4 \n", 60), sample(60, 4096));
    assert_eq!(weighed("none", 60), sample(60, 0));
}

#[test]
fn soak_the_streak_of_failing_rounds_is_the_longest_seen() {
    let mut report = healthy();
    report.streak = 0;
    let failing = round_ended(&mut report, 0, false);
    let failing = round_ended(&mut report, failing, false);
    assert_eq!((failing, report.streak), (2, 2));
    let failing = round_ended(&mut report, failing, true);
    assert_eq!((failing, report.streak), (0, 2));
}

#[test]
fn soak_what_the_engine_says_is_read_strictly() {
    assert_eq!(counted(" 12\n"), 12);
    assert_eq!(counted("twelve"), 0);
    assert!(alive("1\n"));
    assert!(!alive("0\n"));
    assert!(!alive("warning"));
    assert!(matches!(attendance("screen 0 4 0\n"), Attendance::Attached));
    assert!(matches!(attendance(""), Attendance::Waiting));
    match attendance("error: refused") {
        Attendance::Refused(refusal) => assert_eq!(refusal.message(), "the held client's first word was not the pane as it stands: error: refused"),
        other => panic!("expected a refusal, got {other:?}"),
    }
    assert_eq!(machine(" linux, x86_64 \n").expect("named"), "linux, x86_64");
    assert_eq!(machine("linux, , 8").expect_err("a part missing").message(), "the machine would not say what processor it has: linux, , 8");
    assert!(cut_seen("stopped:T").is_ok());
    assert_eq!(cut_seen("running\n").expect_err("not stopped").message(), "the cut did not stop the daemon; it said: running");
}

#[test]
fn soak_the_report_renders_as_the_note() {
    let report = healthy();
    let mut expected = String::from(
        "# Soak report\n\n- **Machine:** linux, x86_64, 8 cores\n- **Duration:** 60 minutes\n- **Warmup:** 10 minutes\n- **Rounds:** 2 attempted, 2 finished, 1 flooded, longest run of failures 0\n- **Cuts:** 2, each seen to have stopped the daemon it named\n- **Pane churn:** 2 sessions made and unmade\n- **Held client:** 1 deliveries, 198894 bytes, 1 screens, attached at byte 5\n- **Growth ceiling:** 4194304 bytes an hour, after the warmup\n\n",
    );
    for (side, bytes) in [("held client", 1000), ("daemon it watches", 2000), ("daemon it churns", 3000)] {
        expected.push_str(&format!(
            "\n## The {side}, in bytes\n\n| At | Resident |\n|---|---|\n| 600s | {bytes} |\n| 1200s | {bytes} |\n\nGrowth after the warmup: 0 bytes an hour.\n"
        ));
    }
    assert_eq!(rendered(&report), expected);
}

#[test]
fn soak_each_round_is_given_a_step_of_its_own() {
    let first = flooding_step(1);
    assert!(first.starts_with("scenario = \"soak\"\nid = \"flooding\"\ncontainer = \"engine\"\ntimeout_seconds = 240\n"));
    assert!(first.contains("patience_milliseconds = 240000\n"));
    assert!(first.contains("text = \"echo flooded-1\\n\""));
    assert!(first.contains("contains = \"flooded-1\", within_milliseconds = 120000"));
    assert!(first.ends_with("]\n"));
    assert_ne!(flooding_step(1), flooding_step(11));
    assert_ne!(flooding_step(0), flooding_step(10));
    let again = recovery_step(12);
    assert!(again.contains("id = \"recovery\""));
    assert!(again.contains("text = \"echo round-12\\n\""));
    assert!(!again.contains("seq 1"));
    assert!(!again.contains("pause_host"));
    assert_ne!(recovery_step(1), recovery_step(12));
    assert_ne!(recovery_step(2), recovery_step(21));
}

#[test]
fn soak_a_stream_read_in_windows_is_reckoned_as_if_read_whole() {
    let first = "output 0 4 0\nscreen 4 0 0\n";
    let second = "output 4 8 0\noutput 10 4 1\n";
    let mut windowed = Heard::default();
    heard_more(&mut windowed, first).expect("the first window");
    heard_more(&mut windowed, second).expect("the second window");
    let mut whole = Heard::default();
    heard_more(&mut whole, &format!("{first}{second}")).expect("the whole stream");
    let facts = |heard: &Heard| (heard.deliveries, heard.bytes, heard.screens, heard.expected, heard.attached);
    assert_eq!(facts(&windowed), facts(&whole));
    assert_eq!(facts(&whole), (3, 11, 1, Some(12), Some(4)));
}

#[test]
fn soak_samples_taken_at_one_instant_show_no_growth() {
    assert_eq!(grown(&[sample(700, 1), sample(700, 9_000), sample(700, 40)], 600), None);
    assert_eq!(grown(&[sample(0, 5), sample(700, 1), sample(700, 9_000)], 600), None);
    assert_eq!(grown(&[sample(u64::MAX, 1), sample(u64::MAX, 2)], 0), None);
}
