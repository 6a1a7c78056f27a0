use turicraft::diag::{first_error, is_cascade, native_crash, native_frame, read_report, report_crash};

const LOG: &str = "[12:00:01] [main/INFO]: start
[12:00:02] [Render thread/ERROR]: glfwInit took 3 ms
[12:00:03] [modloading-worker-0/ERROR]: Failed to create mod instance. ModID: badmod
[12:00:04] [main/FATAL]: later
";

#[test]
fn first_real_error_of_the_log() {
    assert_eq!(first_error(LOG).unwrap(), "[12:00:03] [modloading-worker-0/ERROR]: Failed to create mod instance. ModID: badmod");
    assert_eq!(first_error("[x/INFO] fine\n"), None);
    let long = format!("[a/ERROR] {}", "x".repeat(400));
    assert_eq!(first_error(&long).unwrap().chars().count(), 300);
    assert!(is_cascade("... in broken mod state ..."));
    assert!(!is_cascade(LOG));
}

#[test]
fn crash_report_read() {
    let report = "---- Minecraft Crash Report ----\n// Oops\n\nDescription: Rendering screen\n\n\njava.lang.NullPointerException: boom\n\tat x.y\n";
    assert_eq!(read_report(report), ("Rendering screen".to_string(), "java.lang.NullPointerException: boom".to_string()));
    assert_eq!(read_report("no description"), ("?".to_string(), String::new()));
    assert_eq!(read_report("Description: only"), ("only".to_string(), String::new()));
    let s = report_crash(report, "/c/crash.txt".into(), LOG);
    assert_eq!(s.description, "Rendering screen");
    assert_eq!(s.report.as_deref(), Some("/c/crash.txt"));
    assert!(s.first_error.unwrap().contains("badmod"));
    assert!(!s.native && !s.cascade);
}

#[test]
fn native_crash_read() {
    let hs = "#\n# A fatal error\n# Problematic frame:\n# C  [libGL.so.1+0x1234]  glXSwap\n#\n";
    assert_eq!(native_frame(hs), "C  [libGL.so.1+0x1234]  glXSwap");
    assert_eq!(native_frame("nothing"), "");
    assert_eq!(native_frame("# Problematic frame:"), "");
    let s = native_crash(hs, "/g/hs_err_pid1.log".into(), "");
    assert_eq!(s.description, "Plantage de Java (code natif)");
    assert_eq!(s.cause, "C  [libGL.so.1+0x1234]  glXSwap");
    assert!(s.native);
    assert_eq!(s.first_error, None);
}

#[test]
fn newest_crash_file_chosen() {
    let e = |n: &str, t: u64| (n.to_string(), t);
    let entries = vec![
        e("crash-2024-a.txt", 100),
        e("crash-2024-b.txt", 300),
        e("latest.log", 900),
        e("crash-old.txt", 50),
        e("crash-2024-c.txt", 300),
        e("crash-2024-d.log", 400),
    ];
    // the latest, the last listed on a tie, as max_by_key
    assert_eq!(turicraft::diag::newest_entry(&entries, "crash-", ".txt", 60), Some(4));
    assert_eq!(turicraft::diag::newest_entry(&entries, "crash-", ".txt", 301), None);
    assert_eq!(turicraft::diag::newest_entry(&entries, "hs_err_pid", ".log", 0), None);
}
