use shred_graphique::shred::{
    final_status, helper_target, is_io_error_line, is_io_error_text, parse_pid_line, shred_args,
    stop_failure_message, HelperTarget, SHRED_PASSES, LineOutcome, ShredPatterns, ShredProgress, ShredResult, ShredStatus,
};

fn progress(o: LineOutcome) -> (String, String, String) {
    match o {
        LineOutcome::Progress { percent, current_step, total_steps } => (percent, current_step, total_steps),
        other => panic!("not a progress report: {:?}", other),
    }
}

#[test]
fn io_error_lines() {
    assert!(is_io_error_line("shred: /dev/sdb: error writing at offset 0: Input/Output error"));
    assert!(is_io_error_line("shred: /dev/sdb: ERREUR D'ÉCRITURE AU DÉCALAGE 512"));
    assert!(is_io_error_line("shred: fdatasync failed"));
    assert!(is_io_error_line("kernel: I/O ERROR on dev sdb"));
    assert!(!is_io_error_line("shred: /dev/sdb : étape 1/4 (random)…2,7GiB/233GiB 1 %"));
    assert!(!is_io_error_text("INPUT/OUTPUT ERROR"));
    assert!(is_io_error_text("input/output error"));
}

#[test]
fn progress_lines() {
    let pats = ShredPatterns::new();
    let mut p = ShredProgress::new();
    assert_eq!(p.current_step, "1");
    assert_eq!(p.total_steps, "4");
    let o = p.handle_line(&pats, "shred: /dev/sdb : étape 1/4 (random)…2,7GiB/233GiB 1 %");
    assert_eq!(progress(o), ("1".to_string(), "1".to_string(), "4".to_string()));
    let o = p.handle_line(&pats, "shred: /dev/sdb : étape 3/4 (random)…100GiB/233GiB 42 %");
    assert_eq!(progress(o), ("42".to_string(), "3".to_string(), "4".to_string()));
    assert_eq!(p.current_step, "3");
    let o = p.handle_line(&pats, "shred: /dev/sdb : étape 4/4 (000000)…");
    assert!(matches!(o, LineOutcome::Other));
    assert_eq!(p.current_step, "4");
    let o = p.handle_line(&pats, "");
    assert!(matches!(o, LineOutcome::Other));
    let o = p.handle_line(&pats, "50% done");
    assert_eq!(progress(o), ("50".to_string(), "4".to_string(), "4".to_string()));
    assert!(!p.had_io_error);
    assert_eq!(
        p.stderr_buffer,
        "shred: /dev/sdb : étape 1/4 (random)…2,7GiB/233GiB 1 %\nshred: /dev/sdb : étape 3/4 (random)…100GiB/233GiB 42 %\nshred: /dev/sdb : étape 4/4 (000000)…\n50% done\n"
    );
    let o = p.handle_line(&pats, "shred: /dev/sdb: Input/output error");
    assert!(matches!(o, LineOutcome::IoError));
    assert!(p.had_io_error);
    assert!(p.stderr_buffer.ends_with("Input/output error\n"));
}

#[test]
fn final_statuses() {
    let run = |success, io, code: Option<i32>| {
        final_status(Ok(ShredResult { success, had_io_error: io, exit_code: code, stderr: "err".to_string() }))
    };
    assert!(matches!(run(true, false, Some(0)), ShredStatus::Completed));
    assert!(matches!(run(false, false, Some(143)), ShredStatus::Stopped));
    assert!(matches!(run(false, false, None), ShredStatus::Stopped));
    match run(true, true, Some(0)) {
        ShredStatus::FailedIoError { message, stderr } => {
            assert_eq!(message, "Erreur d'entrée/sortie détectée");
            assert_eq!(stderr, "err");
        }
        s => panic!("{:?}", s),
    }
    match run(false, false, Some(1)) {
        ShredStatus::FailedOther { message, stderr } => {
            assert_eq!(message, "Le processus a échoué");
            assert_eq!(stderr, "err");
        }
        s => panic!("{:?}", s),
    }
    match final_status(Err("Impossible de démarrer shred: boom".to_string())) {
        ShredStatus::FailedOther { message, stderr } => {
            assert_eq!(message, "Impossible d'exécuter shred: Impossible de démarrer shred: boom");
            assert_eq!(stderr, "");
        }
        s => panic!("{:?}", s),
    }
}

#[test]
fn command_and_replies() {
    assert_eq!(
        shred_args("/usr/bin/shred-graphique-helper", 3, "/dev/sdb"),
        vec!["/usr/bin/shred-graphique-helper", "shred", "-n", "3", "-z", "-v", "/dev/sdb"]
    );
    assert_eq!(shred_args("h", 25, "d")[3], "25");
    assert_eq!(parse_pid_line("PID:4242\n"), Some(4242));
    assert_eq!(parse_pid_line("  PID:+7 "), Some(7));
    assert_eq!(parse_pid_line("PID:"), None);
    assert_eq!(parse_pid_line("PID:4294967296"), None);
    assert_eq!(parse_pid_line("pid:12"), None);
    assert_eq!(stop_failure_message(" \n"), "L'arrêt a été annulé ou refusé");
    assert_eq!(stop_failure_message("kill: denied\n"), "L'arrêt a échoué: kill: denied");
}

#[test]
fn helper_operations() {
    assert!(matches!(helper_target("shred"), HelperTarget::Exec(p) if p == "/usr/bin/shred"));
    assert!(matches!(helper_target("kill"), HelperTarget::Run(p) if p == "/usr/bin/kill"));
    assert!(matches!(helper_target("smartctl"), HelperTarget::Run(p) if p == "/usr/sbin/smartctl"));
    assert!(matches!(helper_target("blkid"), HelperTarget::Run(p) if p == "/usr/bin/blkid"));
    assert!(matches!(helper_target("true"), HelperTarget::Run(p) if p == "/usr/bin/true"));
    assert!(matches!(helper_target("rm"), HelperTarget::Refused));
    assert!(matches!(helper_target("Shred"), HelperTarget::Refused));
}

#[test]
fn three_passes_then_zeros() {
    assert_eq!(SHRED_PASSES, 3);
    let args = shred_args("helper", SHRED_PASSES, "/dev/sdc");
    assert_eq!(args, vec!["helper", "shred", "-n", "3", "-z", "-v", "/dev/sdc"]);
}

#[test]
fn take_line_from_given_matches() {
    let mut p = ShredProgress::new();
    let step = Some(vec![Some("étape 2/4".to_string()), Some("2".to_string()), Some("4".to_string())]);
    let pct = Some(vec![Some("37 %".to_string()), Some("37".to_string())]);
    let o = p.take_line("SHRED: Étape 2/4 37 %", "shred: étape 2/4 37 %", &step, &pct);
    assert_eq!(progress(o), ("37".to_string(), "2".to_string(), "4".to_string()));
    assert_eq!(p.current_step, "2");
    assert_eq!(p.stderr_buffer, "SHRED: Étape 2/4 37 %\n");
    let o = p.take_line("x", "x", &None, &Some(vec![Some("9%".to_string()), Some("nine".to_string())]));
    assert!(matches!(o, LineOutcome::Other));
    let o = p.take_line("Input/Output Error", "input/output error", &None, &pct);
    assert!(matches!(o, LineOutcome::IoError));
    assert!(p.had_io_error);
    assert_eq!(p.stderr_buffer, "SHRED: Étape 2/4 37 %\nx\nInput/Output Error\n");
}
