use shred_graphique::logger::{
    human_readable_log, log_file_name, log_disk_result, log_operation_end, log_operation_start,
};

#[test]
fn session_records_results_in_order() {
    let mut log = None;
    log_disk_result(&mut log, "sdz", true, "lost");
    assert!(log.is_none());
    log_operation_start(&mut log, "2026-02-09 10:00:00".to_string(), &["sda".to_string(), "sdb".to_string()]);
    log_disk_result(&mut log, "sda", true, "Succès");
    log_disk_result(&mut log, "sdb", false, "Arrêté par l'utilisateur");
    let entry = log_operation_end(&mut log).unwrap();
    assert!(log.is_none());
    assert_eq!(entry.operation, "Secure disk wiping");
    assert_eq!(entry.timestamp, "2026-02-09 10:00:00");
    assert_eq!(entry.disks, vec!["sda".to_string(), "sdb".to_string()]);
    assert_eq!(entry.results.len(), 2);
    assert_eq!(entry.results[0].disk_name, "sda");
    assert!(entry.results[0].success);
    assert_eq!(entry.results[1].message, "Arrêté par l'utilisateur");
    assert!(log_operation_end(&mut log).is_none());
}

#[test]
fn readable_journal_text() {
    let mut log = None;
    log_operation_start(&mut log, "T".to_string(), &["sda".to_string()]);
    log_disk_result(&mut log, "sda", true, "Succès");
    log_disk_result(&mut log, "sdb", false, "Échec");
    let entry = log_operation_end(&mut log).unwrap();
    let text = human_readable_log(&entry);
    let rule = "═══════════════════════════════════════════════════════════════\n";
    let light = "───────────────────────────────────────────────────────────────\n";
    let expected = format!(
        "{rule}          JOURNAL DE SUPPRESSION SÉCURISÉE DE DISQUES\n{rule}\nDate et heure : T\nOpération     : Secure disk wiping\n\nDisques traités :\n  • sda\n\n{light}                          RÉSULTATS\n{light}\nDisque : sda\nStatut : ✅ SUCCÈS\nMessage: Succès\n\nDisque : sdb\nStatut : ❌ ÉCHEC\nMessage: Échec\n\n{light}BILAN : 1/2 opérations réussies\n{light}"
    );
    assert_eq!(text, expected);
}

#[test]
fn journal_file_name() {
    assert_eq!(log_file_name("20260209_100000"), "shred_log_20260209_100000.json");
}
