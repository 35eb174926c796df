use shred_graphique::disk::Disk;
use shred_graphique::jobs::{
    attr_label, attr_line, attr_lines_text, confirmation_message, disk_card, failure_log_message,
    colored_line, info_label, info_style, io_error_dialog_message, progress_banner,
    reopened_after_run, select_all_state, select_all_ticks, verify_note, within_limit,
    smart_message, status_color, status_effect, summary_words, validate_selection, JobState,
    JobTable, VerifyState,
};
use shred_graphique::shred::ShredStatus;
use shred_graphique::system::{SmartAttrStatus, SmartSummary};

fn disk(name: &str, system: bool, mounted: bool, ssd: bool, ro: bool) -> Disk {
    Disk {
        name: name.to_string(),
        path: format!("/dev/{}", name),
        size: "500G".to_string(),
        model: "Samsung SSD 850".to_string(),
        is_ssd: ssd,
        is_read_only: ro,
        is_system: system,
        is_mounted: mounted,
    }
}

#[test]
fn job_table_records() {
    let mut t = JobTable::new();
    assert!(t.get("sda").is_none());
    t.mark_running("sda");
    assert_eq!(t.get("sda").unwrap().status, JobState::Running);
    assert_eq!(t.get("sda").unwrap().attempts, vec!["Démarrage".to_string()]);
    assert!(t.any_running());
    t.update_job_state("sda", JobState::FailedIo, "Erreur d'entrée/sortie détectée");
    t.update_job_state("sdb", JobState::Success, "Succès");
    let a = t.get("sda").unwrap();
    assert_eq!(a.status, JobState::FailedIo);
    assert_eq!(a.attempts, vec!["Démarrage".to_string(), "Erreur d'entrée/sortie détectée".to_string()]);
    assert_eq!(t.get("sdb").unwrap().attempts, vec!["Succès".to_string()]);
    assert!(!t.any_running());
    assert!(t.has_failed());
    let names = vec!["sdb".to_string(), "sdc".to_string(), "sda".to_string()];
    assert_eq!(t.failed_among(&names), vec![2]);
    t.mark_running("sda");
    assert_eq!(t.get("sda").unwrap().attempts.len(), 3);
    assert!(!t.has_failed());
    t.clear();
    assert!(t.get("sda").is_none());
}

#[test]
fn job_table_verification() {
    let mut t = JobTable::new();
    t.set_verification("sda", VerifyState::Ko, Some("x".to_string()));
    assert!(t.get("sda").is_none());
    t.update_job_state("sda", JobState::Success, "Succès");
    t.set_verification("sda", VerifyState::Ko, Some("/dev/sda: PTTYPE=\"gpt\"".to_string()));
    assert_eq!(t.get("sda").unwrap().verify_state, Some(VerifyState::Ko));
    assert_eq!(t.verification_details("sda"), "sda: /dev/sda: PTTYPE=\"gpt\"");
    assert_eq!(t.verification_details("sdb"), "sdb: Aucun détail disponible");
    t.reset_verifications();
    assert_eq!(t.get("sda").unwrap().verify_state, None);
    assert_eq!(t.get("sda").unwrap().verify_output, None);
    assert_eq!(t.get("sda").unwrap().status, JobState::Success);
    assert_eq!(t.verification_details("sda"), "sda: Aucun détail disponible");
    t.set_verification("sda", VerifyState::Passed, None);
    assert_eq!(t.get("sda").unwrap().verify_state, Some(VerifyState::Passed));
}

#[test]
fn selection_checks() {
    assert_eq!(
        validate_selection(&[]),
        Err(("Aucun disque sélectionné".to_string(), "Veuillez sélectionner au least un disque.".to_string()))
    );
    let ok = vec![disk("sdb", false, false, false, false), disk("sdc", false, false, true, false)];
    assert_eq!(validate_selection(&ok), Ok(()));
    let bad = vec![
        disk("sdb", false, false, false, false),
        disk("sda", true, true, false, false),
        disk("sdc", false, true, false, false),
    ];
    assert_eq!(
        validate_selection(&bad),
        Err(("Impossible d'effacer sda".to_string(), "Ce disque est le disque système".to_string()))
    );
    let many: Vec<Disk> = (0..11).map(|i| disk(&format!("sd{}", i), false, false, false, false)).collect();
    assert_eq!(
        validate_selection(&many),
        Err(("Trop de disques sélectionnés".to_string(), "Veuillez sélectionner au plus 10 disques.".to_string()))
    );
    assert_eq!(validate_selection(&many[..10]), Ok(()));
}

#[test]
fn confirmation_text() {
    let ds = vec![disk("sdb", false, false, false, false), disk("sdc", false, false, false, false)];
    assert_eq!(
        confirmation_message(&ds),
        "Vous êtes sur le point d'effacer DÉFINITIVEMENT les disques suivants :\n\n  • sdb (/dev/sdb)\n  • sdc (/dev/sdc)\n\nCette action est IRRÉVERSIBLE.\nToutes les données seront PERDUES.\n\nÊtes-vous ABSOLUMENT SÛR de vouloir continuer ?"
    );
}

#[test]
fn disk_cards() {
    let c = disk_card(&disk("sdb", false, false, true, false));
    assert!(c.selectable);
    assert_eq!(c.badge_text, "INACTIF");
    assert_eq!(c.badge_class, "status-idle");
    assert_eq!(c.subtitle, "SSD • 500G (Samsung SSD 850)");
    let c = disk_card(&disk("sdc", false, true, false, false));
    assert!(!c.selectable);
    assert_eq!(c.badge_text, "INDISPONIBLE");
    assert_eq!(c.badge_class, "status-failed");
    assert_eq!(c.subtitle, "HDD • 500G (Samsung SSD 850) — Ce disque ou l'une de ses partitions est monté");
}

#[test]
fn outcome_texts() {
    assert_eq!(failure_log_message("Le processus a échoué", " \n"), "Le processus a échoué");
    assert_eq!(failure_log_message("Le processus a échoué", "boom\n"), "Le processus a échoué: boom");
    assert_eq!(
        io_error_dialog_message("sdb", ""),
        "Le disque sdb a rencontré une erreur d'entrée/sortie.\nLe processus a été interrompu automatiquement."
    );
    assert_eq!(
        io_error_dialog_message("sdb", " I/O error \n"),
        "Le disque sdb a rencontré une erreur d'entrée/sortie.\nLe processus a été interrompu automatiquement.\n\nDétails:\nI/O error"
    );
    assert_eq!(progress_banner(1, 3), ("🔄 En cours... (1/3)".to_string(), false));
    assert_eq!(progress_banner(3, 3), ("<b>✅ Toutes les opérations sont terminées (3/3)</b>".to_string(), true));
}

#[test]
fn select_all_box() {
    assert_eq!(select_all_state(&[], &[]), (false, false));
    assert_eq!(select_all_state(&[false, false], &[true, false]), (false, false));
    assert_eq!(select_all_state(&[true, false, true], &[true, false, true]), (true, true));
    assert_eq!(select_all_state(&[true, true], &[true, false]), (false, true));
}

#[test]
fn smart_texts() {
    assert_eq!(info_style(SmartSummary::Good), "info-good");
    assert_eq!(info_style(SmartSummary::PreFail), "info-warn");
    assert_eq!(info_style(SmartSummary::Bad), "info-bad");
    assert_eq!(info_label("info-good"), "i");
    assert_eq!(info_label("info-warn"), "w");
    assert_eq!(info_label("info-bad"), "!");
    assert_eq!(info_label("info-unknown"), "?");
    assert_eq!(summary_words(SmartSummary::PreFail), ("Pré-fail".to_string(), "orange".to_string()));
    assert_eq!(status_color(SmartAttrStatus::Bad), "red");
    assert_eq!(attr_label("Power_On_Minutes"), "Heures de fonctionnement");
    assert_eq!(attr_label("Seek_Error_Rate"), "Seek_Error_Rate");
    let l1 = attr_line("green", "Secteurs réalloués", "0", Some("010"));
    assert_eq!(l1, "<span foreground='green'>●</span> Secteurs réalloués = 0 (seuil 010)");
    let l2 = attr_line("red", "Secteurs en attente", "3", None);
    assert_eq!(attr_lines_text(&[]), "Aucun attribut clé trouvé");
    let joined = attr_lines_text(&[l1.clone(), l2.clone()]);
    assert_eq!(joined, format!("{}\n{}", l1, l2));
    assert_eq!(
        smart_message("sda", "green", "Bon", "r", "a"),
        "Disque: sda\nStatut: <span foreground='green'>●</span> Bon\n\nSynthèse:\nr\n\nAttributs clés:\na"
    );
}

#[test]
fn status_effects() {
    let e = status_effect(&ShredStatus::Starting);
    assert_eq!(e.badge_text, "EN COURS");
    assert_eq!(e.progress_text.as_deref(), Some("Démarrage..."));
    assert!(e.outcome.is_none());
    assert!(!e.start_check);

    let e = status_effect(&ShredStatus::InProgress {
        percent: "50".to_string(),
        current_step: "2".to_string(),
        total_steps: "4".to_string(),
    });
    assert_eq!(e.badge_class, "status-running");
    assert!(e.progress_text.is_none());
    assert!(e.outcome.is_none());

    let e = status_effect(&ShredStatus::Completed);
    assert_eq!(e.badge_text, "TERMINÉ");
    assert_eq!(e.progress_text.as_deref(), Some("100%"));
    assert_eq!(e.outcome, Some((JobState::Success, true, "Succès".to_string())));
    assert!(e.skipped_check_color.is_none());
    assert!(e.start_check);

    let e = status_effect(&ShredStatus::Stopped);
    assert_eq!(e.badge_class, "status-stopped");
    assert_eq!(
        e.outcome,
        Some((JobState::Cancelled, false, "Arrêté par l'utilisateur".to_string()))
    );
    assert_eq!(e.skipped_check_color.as_deref(), Some("orange"));
    assert!(!e.start_check);

    let e = status_effect(&ShredStatus::FailedIoError {
        message: "Erreur d'entrée/sortie".to_string(),
        stderr: "  shred: /dev/sdb: Input/output error\n".to_string(),
    });
    assert_eq!(e.badge_text, "ÉCHEC E/S");
    assert_eq!(
        e.outcome,
        Some((
            JobState::FailedIo,
            false,
            "Erreur d'entrée/sortie: shred: /dev/sdb: Input/output error".to_string()
        ))
    );
    assert_eq!(e.skipped_check_color.as_deref(), Some("red"));

    let e = status_effect(&ShredStatus::FailedOther {
        message: "Code 1".to_string(),
        stderr: "   ".to_string(),
    });
    assert_eq!(e.badge_text, "ÉCHEC");
    assert_eq!(e.outcome, Some((JobState::FailedOther, false, "Code 1".to_string())));
    assert!(!e.start_check);
}

#[test]
fn select_all_caps_at_ten() {
    let mut can = vec![true; 12];
    can[1] = false;
    let ticks = select_all_ticks(&can);
    assert_eq!(ticks.iter().filter(|t| **t).count(), 10);
    assert!(!ticks[1]);
    assert!(ticks[10]);
    assert!(!ticks[11]);
    assert_eq!(select_all_state(&can, &ticks), (true, true));
    assert_eq!(select_all_ticks(&[true, false, true]), vec![true, false, true]);
    assert_eq!(select_all_ticks(&[]), Vec::<bool>::new());
    let mut nine = vec![false; 12];
    for t in nine.iter_mut().take(9) {
        *t = true;
    }
    assert_eq!(select_all_state(&[true; 12], &nine), (false, true));
    nine[11] = true;
    assert_eq!(select_all_state(&[true; 12], &nine), (true, true));
}

#[test]
fn retry_within_ten() {
    assert_eq!(within_limit(vec![0, 3, 5]), vec![0, 3, 5]);
    let many: Vec<usize> = (0..15).collect();
    assert_eq!(within_limit(many), (0..10).collect::<Vec<usize>>());
}

#[test]
fn boxes_reopened_after_run() {
    let disks = vec![
        disk("sda", true, false, false, false),
        disk("sdb", false, false, false, false),
        disk("sdc", false, true, false, false),
        disk("sdd", false, false, false, false),
    ];
    assert_eq!(
        reopened_after_run(&disks, &[false, false, false, true]),
        vec![false, true, false, false]
    );
    assert_eq!(reopened_after_run(&disks, &[]), vec![false, true, false, true]);
}

#[test]
fn verification_notes() {
    assert_eq!(verify_note(VerifyState::Pending), ("Vérification: en cours...".to_string(), "blue".to_string()));
    assert_eq!(verify_note(VerifyState::Passed), ("Vérification: OK".to_string(), "green".to_string()));
    assert_eq!(verify_note(VerifyState::Ko), ("Vérification: KO".to_string(), "red".to_string()));
    assert_eq!(verify_note(VerifyState::Error), ("Vérification: erreur".to_string(), "orange".to_string()));
    assert_eq!(
        colored_line("Vérification : non effectuée", "red"),
        "<span foreground='red'>Vérification : non effectuée</span>"
    );
}
