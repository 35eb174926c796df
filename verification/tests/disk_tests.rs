use shred_graphique::disk::{
    check_if_mounted, check_if_system_disk, disks_from_lsblk_output, parse_lsblk_pairs, Disk,
};

const MOUNTS: &str = "/dev/nvme0n1p2 / ext4 rw,relatime 0 0
/dev/nvme0n1p1 /boot/efi vfat rw 0 0
proc /proc proc rw,nosuid 0 0
/dev/sdb1 /media/usb vfat rw 0 0
";

fn disk(name: &str, ssd: bool, ro: bool, mounts: &str) -> Disk {
    Disk::new(
        name.to_string(),
        format!("/dev/{}", name),
        "500G".to_string(),
        "Model".to_string(),
        ssd,
        ro,
        mounts,
    )
}

#[test]
fn system_disk_is_the_one_mounted_at_root() {
    assert!(check_if_system_disk("nvme0n1", MOUNTS));
    assert!(!check_if_system_disk("sdb", MOUNTS));
    assert!(!check_if_system_disk("sda", ""));
}

#[test]
fn mounted_disks_found_by_prefix() {
    assert!(check_if_mounted("sdb", MOUNTS));
    assert!(check_if_mounted("nvme0n1", MOUNTS));
    assert!(!check_if_mounted("sdc", MOUNTS));
}

#[test]
fn new_reads_mount_table() {
    let d = disk("nvme0n1", true, false, MOUNTS);
    assert!(d.is_system);
    assert!(d.is_mounted);
    let d = disk("sdc", false, false, MOUNTS);
    assert!(!d.is_system);
    assert!(!d.is_mounted);
    assert_eq!(d.path, "/dev/sdc");
}

#[test]
fn system_disk_cannot_be_shredded() {
    let d = disk("nvme0n1", true, false, MOUNTS);
    let (ok, reason) = d.can_be_shredded();
    assert!(!ok);
    assert!(reason.contains("système"));
    assert_eq!(reason, "Ce disque est le disque système");
}

#[test]
fn shred_verdicts() {
    let (ok, reason) = disk("sdc", true, true, MOUNTS).can_be_shredded();
    assert!(!ok);
    assert_eq!(reason, "SSD en lecture seule (RO)");
    let (ok, reason) = disk("sdb", false, false, MOUNTS).can_be_shredded();
    assert!(!ok);
    assert_eq!(reason, "Ce disque ou l'une de ses partitions est monté");
    let (ok, reason) = disk("sdc", false, true, MOUNTS).can_be_shredded();
    assert!(ok);
    assert_eq!(reason, "OK");
}

#[test]
fn lsblk_pairs_with_spaces_and_escapes() {
    let f = parse_lsblk_pairs(r#"NAME="sda" SIZE="500G" MODEL="Samsung SSD 850 \"EVO\"" TYPE="disk" ROTA="0" RO="0""#);
    assert_eq!(f.get("NAME").as_deref(), Some("sda"));
    assert_eq!(f.get("MODEL").as_deref(), Some("Samsung SSD 850 \"EVO\""));
    assert_eq!(f.get("ROTA").as_deref(), Some("0"));
    assert_eq!(f.get("VENDOR"), None);
    let f = parse_lsblk_pairs(r#"A="1" A="2" ="x" B="""#);
    assert_eq!(f.get("A").as_deref(), Some("2"));
    assert_eq!(f.get("B").as_deref(), Some(""));
    assert_eq!(f.get(""), None);
    assert_eq!(f.get_or("C", "dflt"), "dflt");
}

#[test]
fn disks_from_listing() {
    let listing = "NAME=\"loop0\" SIZE=\"4K\" MODEL=\"\" TYPE=\"loop\" ROTA=\"0\" RO=\"1\"
NAME=\"sda\" SIZE=\"1T\" MODEL=\"WDC WD10EZEX\" TYPE=\"disk\" ROTA=\"1\" RO=\"0\"
NAME=\"sr0\" SIZE=\"1024M\" MODEL=\"DVD\" TYPE=\"rom\" ROTA=\"1\" RO=\"0\"
NAME=\"ram0\" SIZE=\"4M\" MODEL=\"\" TYPE=\"disk\" ROTA=\"0\" RO=\"0\"
NAME=\"nvme0n1\" SIZE=\"476,9G\" MODEL=\"\" TYPE=\"disk\" ROTA=\"0\" RO=\"0\"
NAME=\"sdz\" SIZE=\"8G\" TYPE=\"disk\"
SIZE=\"8G\" TYPE=\"disk\"
";
    let disks = disks_from_lsblk_output(listing, MOUNTS);
    let names: Vec<&str> = disks.iter().map(|d| d.name.as_str()).collect();
    assert_eq!(names, vec!["sda", "nvme0n1", "sdz"]);
    assert_eq!(disks[0].path, "/dev/sda");
    assert_eq!(disks[0].size, "1T");
    assert!(!disks[0].is_ssd);
    assert!(!disks[0].is_system);
    assert_eq!(disks[1].model, "Unknown");
    assert!(disks[1].is_ssd);
    assert!(disks[1].is_system);
    assert!(!disks[2].is_ssd);
    assert!(!disks[2].is_read_only);
}

const LISTING: &str = "NAME=\"nvme0n1\" SIZE=\"476,9G\" MODEL=\"Samsung SSD 970 EVO Plus 500GB\" TYPE=\"disk\" ROTA=\"0\" RO=\"0\"
NAME=\"sdb\" SIZE=\"14,9G\" MODEL=\"Cruzer Blade\" TYPE=\"disk\" ROTA=\"1\" RO=\"0\"
NAME=\"sdc\" SIZE=\"1T\" MODEL=\"WDC WD10EZEX\" TYPE=\"disk\" ROTA=\"1\" RO=\"0\"
";

#[test]
fn test_detect_disks() {
    let disks = disks_from_lsblk_output(LISTING, MOUNTS);
    assert!(!disks.is_empty(), "Aucun disque détecté");
    assert!(disks.iter().any(|d| d.is_system), "Aucun disque système détecté");
}

#[test]
fn test_disk_safety() {
    let disks = disks_from_lsblk_output(LISTING, MOUNTS);
    for disk in disks {
        let (can_shred, reason) = disk.can_be_shredded();
        if disk.is_system {
            assert!(!can_shred, "Le disque système ne devrait pas pouvoir être effacé");
            assert!(reason.contains("système"));
        }
    }
}

#[test]
fn lsblk_unclosed_value_and_clean_keys() {
    let f = parse_lsblk_pairs(r#"NAME="sda" SIZE="5"#);
    assert_eq!(f.get("NAME").as_deref(), Some("sda"));
    assert_eq!(f.get("SIZE"), None);
    let f = parse_lsblk_pairs("  N A M E = \"x\"");
    assert_eq!(f.get("NAME").as_deref(), Some("x"));
    assert_eq!(f.get("N A M E"), None);
}
