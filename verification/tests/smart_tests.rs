use shred_graphique::system::{
    apply_attr_statuses, blkid_result_from_output, compute_summary, compute_summary_reason,
    get_attr_number, get_attr_value, get_power_on_hours, get_raw_number, parse_health_line,
    parse_hours_from_minutes, parse_smart_attributes, pick_health_line, smart_info_from_output,
    SmartAttr,
    SmartAttrStatus, SmartSummary,
};

fn attr(name: &str, raw: &str, value: Option<u64>) -> SmartAttr {
    SmartAttr {
        name: name.to_string(),
        raw_value: raw.to_string(),
        threshold: None,
        status: SmartAttrStatus::Good,
        value,
    }
}

const REPORT: &str = "smartctl 7.3 2022-02-28 r5338 [x86_64-linux] (local build)
=== START OF READ SMART DATA SECTION ===
SMART overall-health self-assessment test result: PASSED

ID# ATTRIBUTE_NAME          FLAG     VALUE WORST THRESH TYPE      UPDATED  WHEN_FAILED RAW_VALUE
  1 Raw_Read_Error_Rate     0x002f   100   100   051    Pre-fail  Always       -       0
  5 Reallocated_Sector_Ct   0x0033   100   100   010    Pre-fail  Always       -       0
  9 Power_On_Hours          0x0032   091   091   000    Old_age   Always       -       42000
197 Current_Pending_Sector  0x0012   100   100   000    Old_age   Always       -       0
198 Offline_Uncorrectable   0x0030   100   100   000    Old_age   Offline      -       0
";

#[test]
fn raw_number_keeps_only_digits() {
    assert_eq!(get_raw_number("1234"), Some(1234));
    assert_eq!(get_raw_number("12 (Min/Max 3/4)"), Some(1234));
    assert_eq!(get_raw_number("abc"), None);
    assert_eq!(get_raw_number(""), None);
    assert_eq!(get_raw_number("99999999999999999999999"), None);
    assert_eq!(get_raw_number("18446744073709551615"), Some(u64::MAX));
}

#[test]
fn hours_from_minutes_forms() {
    assert_eq!(parse_hours_from_minutes("1234h+56m"), Some(1234));
    assert_eq!(parse_hours_from_minutes("100h+120m"), Some(102));
    assert_eq!(parse_hours_from_minutes(" 7h+x"), Some(7));
    assert_eq!(parse_hours_from_minutes("xh+10m"), None);
    assert_eq!(parse_hours_from_minutes("600"), Some(10));
    assert_eq!(parse_hours_from_minutes("none"), None);
}

#[test]
fn attributes_of_report() {
    let attrs = parse_smart_attributes(REPORT);
    let names: Vec<&str> = attrs.iter().map(|a| a.name.as_str()).collect();
    assert_eq!(
        names,
        vec!["Reallocated_Sector_Ct", "Power_On_Hours", "Current_Pending_Sector", "Offline_Uncorrectable"]
    );
    assert_eq!(attrs[1].raw_value, "42000");
    assert_eq!(attrs[1].value, Some(91));
    assert_eq!(attrs[1].threshold.as_deref(), Some("000"));
    assert!(attrs.iter().all(|a| a.status == SmartAttrStatus::Good));
}

#[test]
fn health_line_found_or_default() {
    assert_eq!(
        parse_health_line(REPORT),
        "SMART overall-health self-assessment test result: PASSED"
    );
    assert_eq!(parse_health_line("nothing here\n"), "Statut SMART inconnu");
    assert_eq!(parse_health_line("  SMART OVERALL-HEALTH: FAILED  \n"), "SMART OVERALL-HEALTH: FAILED");
}

#[test]
fn lookups_take_first_named() {
    let attrs = vec![
        attr("Power_On_Minutes", "90h+30m", None),
        attr("Reallocated_Sector_Ct", "7", Some(80)),
        attr("Reallocated_Sector_Ct", "99", Some(10)),
    ];
    assert_eq!(get_attr_number(&attrs, "Reallocated_Sector_Ct"), Some(7));
    assert_eq!(get_attr_value(&attrs, "Reallocated_Sector_Ct"), Some(80));
    assert_eq!(get_attr_number(&attrs, "Current_Pending_Sector"), None);
    assert_eq!(get_power_on_hours(&attrs), Some(90));
    let hours = vec![attr("Power_On_Hours", "12", None), attr("Power_On_Minutes", "6000", None)];
    assert_eq!(get_power_on_hours(&hours), Some(12));
}

#[test]
fn summary_good_when_passed_and_clean() {
    let attrs = parse_smart_attributes(REPORT);
    let health = "SMART overall-health self-assessment test result: passed";
    assert_eq!(compute_summary(health, &attrs), SmartSummary::Good);
    assert_eq!(
        compute_summary_reason(SmartSummary::Good, health, &attrs),
        "Excellent - aucun secteur dégradé, santé SMART OK"
    );
}

#[test]
fn summary_bad_cases() {
    let pending = vec![attr("Current_Pending_Sector", "3", Some(100))];
    assert_eq!(compute_summary("result: PASSED", &pending), SmartSummary::Bad);
    assert_eq!(
        compute_summary_reason(SmartSummary::Bad, "result: PASSED", &pending),
        "Défaillant - secteurs en attente (3)"
    );
    assert_eq!(compute_summary("result: FAILED!", &[]), SmartSummary::Bad);
    assert_eq!(
        compute_summary_reason(SmartSummary::Bad, "result: FAILED!", &[]),
        "Défaillant - statut SMART FAILED"
    );
    let realloc = vec![attr("Reallocated_Sector_Ct", "60", Some(40))];
    assert_eq!(compute_summary("PASSED", &realloc), SmartSummary::Bad);
    assert_eq!(
        compute_summary_reason(SmartSummary::Bad, "PASSED", &realloc),
        "Défaillant - secteurs réalloués élevés (60)"
    );
    let unc = vec![attr("Reported_Uncorrect", "1", None)];
    assert_eq!(
        compute_summary_reason(SmartSummary::Bad, "PASSED", &unc),
        "Défaillant - erreurs non corrigeables"
    );
    assert_eq!(
        compute_summary_reason(SmartSummary::Bad, "PASSED", &[]),
        "Défaillant - anomalies critiques"
    );
}

#[test]
fn summary_prefail_cases() {
    let realloc = vec![attr("Reallocated_Sector_Ct", "10", Some(80))];
    assert_eq!(compute_summary("PASSED", &realloc), SmartSummary::PreFail);
    assert_eq!(
        compute_summary_reason(SmartSummary::PreFail, "PASSED", &realloc),
        "Surveiller - secteurs réalloués modérés (10)"
    );
    let old = vec![attr("Power_On_Hours", "40000", Some(50))];
    assert_eq!(compute_summary("unknown", &old), SmartSummary::PreFail);
    assert_eq!(
        compute_summary_reason(SmartSummary::PreFail, "unknown", &old),
        "Surveiller - usage élevé (40000 h)"
    );
    assert_eq!(
        compute_summary_reason(SmartSummary::PreFail, "unknown", &[]),
        "Surveiller - statut SMART indéterminé"
    );
    assert_eq!(
        compute_summary_reason(SmartSummary::PreFail, "passed", &[]),
        "Surveiller - indicateurs limites"
    );
}

#[test]
fn statuses_follow_values() {
    let mut attrs = vec![
        attr("Reallocated_Sector_Ct", "60", Some(40)),
        attr("Reallocated_Sector_Ct", "10", Some(80)),
        attr("Current_Pending_Sector", "1", None),
        attr("Offline_Uncorrectable", "0", None),
        attr("Power_On_Hours", "31000", None),
        attr("Power_On_Minutes", "1000h+0m", None),
        attr("Other", "5", None),
    ];
    apply_attr_statuses(&mut attrs);
    let st: Vec<SmartAttrStatus> = attrs.iter().map(|a| a.status).collect();
    assert_eq!(
        st,
        vec![
            SmartAttrStatus::Bad,
            SmartAttrStatus::Warn,
            SmartAttrStatus::Bad,
            SmartAttrStatus::Good,
            SmartAttrStatus::Warn,
            SmartAttrStatus::Good,
            SmartAttrStatus::Good,
        ]
    );
    assert_eq!(attrs[0].raw_value, "60");
}

#[test]
fn smart_info_from_run() {
    let err = smart_info_from_output(false, "", "  \n").unwrap_err();
    assert_eq!(err, "smartctl -a a échoué");
    let err = smart_info_from_output(false, "", " device busy \n").unwrap_err();
    assert_eq!(err, "device busy");
    let info = smart_info_from_output(true, REPORT, "").unwrap();
    assert_eq!(info.summary, SmartSummary::Good);
    assert_eq!(info.attributes.len(), 4);
    assert_eq!(info.attributes[1].status, SmartAttrStatus::Warn);
    assert_eq!(info.summary_reason, "Excellent - aucun secteur dégradé, santé SMART OK");
}

#[test]
fn blkid_outcomes() {
    let r = blkid_result_from_output(true, "\n", "").unwrap();
    assert!(r.ok);
    assert_eq!(r.output, "");
    let r = blkid_result_from_output(false, "", "").unwrap();
    assert!(r.ok);
    let r = blkid_result_from_output(true, " /dev/sdb: PTTYPE=\"gpt\"\n", "").unwrap();
    assert!(!r.ok);
    assert_eq!(r.output, "/dev/sdb: PTTYPE=\"gpt\"");
    let e = blkid_result_from_output(false, "", "blkid: not found").unwrap_err();
    assert_eq!(e, "blkid n'est pas disponible");
    let e = blkid_result_from_output(false, "", "No such file or directory").unwrap_err();
    assert_eq!(e, "blkid n'est pas disponible");
}

#[test]
fn power_on_never_decides() {
    let base = vec![attr("Reallocated_Sector_Ct", "0", Some(100))];
    let mut old = vec![attr("Reallocated_Sector_Ct", "0", Some(100)), attr("Power_On_Hours", "40000", Some(50))];
    assert_eq!(compute_summary("result: PASSED", &base), SmartSummary::Good);
    assert_eq!(compute_summary("result: PASSED", &old), SmartSummary::Good);
    old.push(attr("Power_On_Minutes", "99999h+0m", None));
    assert_eq!(compute_summary("result: PASSED", &old), SmartSummary::Good);
}

#[test]
fn bad_verdict_has_bad_attr() {
    let mut attrs = vec![
        attr("Reallocated_Sector_Ct", "60", Some(40)),
        attr("Current_Pending_Sector", "0", Some(100)),
        attr("Power_On_Hours", "40000", Some(50)),
    ];
    assert_eq!(compute_summary("result: PASSED", &attrs), SmartSummary::Bad);
    apply_attr_statuses(&mut attrs);
    assert!(attrs.iter().any(|a| a.status == SmartAttrStatus::Bad));

    let mut fine = vec![attr("Current_Pending_Sector", "0", Some(100))];
    assert_eq!(compute_summary("result: PASSED", &fine), SmartSummary::Good);
    apply_attr_statuses(&mut fine);
    assert!(!fine.iter().any(|a| a.status == SmartAttrStatus::Bad));
    assert_eq!(compute_summary("result: FAILED!", &fine), SmartSummary::Bad);
}

#[test]
fn health_line_from_lowered_lines() {
    let lines = vec!["a".to_string(), "  X: Overall-Health: PASSED  ".to_string(), "b".to_string()];
    let lowers = vec!["a".to_string(), "overall-health".to_string(), "b".to_string()];
    assert_eq!(pick_health_line(&lines, &lowers), "X: Overall-Health: PASSED");
    let plain = vec!["a".to_string(), "  X: Overall-Health: PASSED  ".to_string()];
    assert_eq!(pick_health_line(&lines, &plain), "Statut SMART inconnu");
    assert_eq!(pick_health_line(&[], &[]), "Statut SMART inconnu");
}
