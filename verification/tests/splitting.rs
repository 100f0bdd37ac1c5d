use kiyomi::assets::{ImageFile, PackagePlan};
use kiyomi::config::{validate_config, ConfigError, RawConfig};
use kiyomi::ledger::Ledger;
use kiyomi::package::u64_to_string;
use kiyomi::split::{make_plans, split_by_size};
use kiyomi::stability::{wait_until_stable_size, GateVerdict, StabilityError, StabilityGate};

fn img(name: &str, size: usize) -> ImageFile {
    ImageFile {
        file_name: name.to_string(),
        contents: vec![0u8; size],
        mime_type: "image/png".to_string(),
    }
}

const MIB: usize = 1024 * 1024;

#[test]
fn split_keeps_every_asset_in_order() {
    let images = vec![img("a", 3), img("b", 3), img("c", 3), img("d", 1)];
    let groups = split_by_size(images, 6);
    let flat: Vec<&str> = groups
        .iter()
        .flat_map(|g| g.iter().map(|i| i.file_name.as_str()))
        .collect();
    assert_eq!(flat, vec!["a", "b", "c", "d"]);
}

#[test]
fn split_respects_budget() {
    let images = vec![img("a", 3), img("b", 3), img("c", 3), img("d", 1)];
    let groups = split_by_size(images, 6);
    assert_eq!(groups.len(), 2);
    assert_eq!(groups[0].len(), 2);
    assert_eq!(groups[1].len(), 2);
    for g in &groups {
        let total: usize = g.iter().map(|i| i.contents.len()).sum();
        assert!(total <= 6);
    }
}

#[test]
fn split_exact_fit_stays_in_current_group() {
    let images = vec![img("a", 4), img("b", 6), img("c", 1)];
    let groups = split_by_size(images, 10);
    assert_eq!(groups.len(), 2);
    assert_eq!(groups[0].len(), 2);
    assert_eq!(groups[1].len(), 1);
}

#[test]
fn split_oversized_assets_stand_alone() {
    let images = vec![img("a", 9), img("b", 8), img("c", 12)];
    let groups = split_by_size(images, 5);
    assert_eq!(groups.len(), 3);
    for g in &groups {
        assert_eq!(g.len(), 1);
    }
}

#[test]
fn split_five_fours_under_ten() {
    let images = vec![
        img("p1", 4 * MIB),
        img("p2", 4 * MIB),
        img("p3", 4 * MIB),
        img("p4", 4 * MIB),
        img("p5", 4 * MIB),
    ];
    let groups = split_by_size(images, 10 * MIB);
    let sizes: Vec<usize> = groups.iter().map(|g| g.len()).collect();
    assert_eq!(sizes, vec![2, 2, 1]);
    for g in &groups {
        let total: usize = g.iter().map(|i| i.contents.len()).sum();
        assert!(total <= 10 * MIB);
    }
}

#[test]
fn split_empty_input_yields_no_groups() {
    let groups = split_by_size(Vec::new(), 10);
    assert_eq!(groups.len(), 0);
}

#[test]
fn single_group_plan_has_no_part_index() {
    let groups = split_by_size(vec![img("a", 1), img("b", 1)], 10);
    let plans = make_plans(groups);
    assert_eq!(plans.len(), 1);
    assert!(plans[0].part_index.is_none());
    assert_eq!(plans[0].images.len(), 2);
}

#[test]
fn multi_group_plans_are_one_indexed() {
    let groups = split_by_size(vec![img("a", 4), img("b", 4), img("c", 4)], 4);
    let plans = make_plans(groups);
    assert_eq!(plans.len(), 3);
    for (k, plan) in plans.iter().enumerate() {
        assert_eq!(plan.part_index, Some((k + 1, 3)));
    }
}

#[test]
fn stability_found_on_first_repeat() {
    let sizes = vec![3, 5, 5, 5];
    assert_eq!(wait_until_stable_size(&sizes, 30), Ok(2));
}

#[test]
fn stability_timeout_when_always_growing() {
    let sizes = vec![1, 2, 3, 4, 5];
    assert_eq!(
        wait_until_stable_size(&sizes, 30),
        Err(StabilityError::StabilityTimeout)
    );
}

#[test]
fn stability_timeout_when_bound_spent() {
    let sizes = vec![1, 2, 3, 3];
    assert_eq!(
        wait_until_stable_size(&sizes, 3),
        Err(StabilityError::StabilityTimeout)
    );
}

#[test]
fn gate_declares_stable_on_repeat() {
    let mut gate = StabilityGate::new(30);
    assert_eq!(gate.observe(7), GateVerdict::Pending);
    assert_eq!(gate.observe(9), GateVerdict::Pending);
    assert_eq!(gate.observe(9), GateVerdict::Stable);
}

#[test]
fn gate_times_out_on_last_attempt() {
    let mut gate = StabilityGate::new(2);
    assert_eq!(gate.observe(1), GateVerdict::Pending);
    assert_eq!(gate.observe(2), GateVerdict::TimedOut);
}

#[test]
fn ledger_membership_after_mark() {
    let mut ledger = Ledger::new();
    assert!(!ledger.has_processed("a.cbz"));
    assert!(ledger.mark_processed("a.cbz"));
    assert!(ledger.has_processed("a.cbz"));
    assert!(!ledger.has_processed("b.cbz"));
}

#[test]
fn ledger_mark_twice_appends_once() {
    let mut ledger = Ledger::new();
    assert!(ledger.mark_processed("m.cbz"));
    assert!(!ledger.mark_processed("m.cbz"));
    assert!(ledger.has_processed("m.cbz"));
    assert_eq!(ledger.len(), 1);
}

#[test]
fn ledger_reads_existing_lines() {
    let ledger = Ledger::from_lines(vec!["one.cbz".to_string(), "two.cbz".to_string()]);
    assert!(ledger.has_processed("one.cbz"));
    assert!(ledger.has_processed("two.cbz"));
    assert!(!ledger.has_processed("three.cbz"));
}

fn full_raw() -> RawConfig {
    RawConfig {
        server: Some("smtp.example.com".to_string()),
        username: Some("user".to_string()),
        password: Some("pw".to_string()),
        from_email: Some("from@example.com".to_string()),
        to_email: Some("to@example.com".to_string()),
        subject: Some("Manga".to_string()),
        manga_dir: Some("/tmp/manga".to_string()),
        manga_dir_on_disk: true,
        size_limit_mib: Some(10),
        delete_after_processing: Some(true),
    }
}

#[test]
fn config_valid_values_carry_through() {
    let c = validate_config(full_raw()).unwrap();
    assert_eq!(c.smtp.server, "smtp.example.com");
    assert_eq!(c.manga_dir, "/tmp/manga");
    assert_eq!(c.size_budget_bytes, 10 * 1024 * 1024);
    assert!(c.delete_after_processing);
}

#[test]
fn config_default_size_limit_is_twenty_five_mib() {
    let mut raw = full_raw();
    raw.size_limit_mib = None;
    raw.delete_after_processing = None;
    let c = validate_config(raw).unwrap();
    assert_eq!(c.size_budget_bytes, 25 * 1024 * 1024);
    assert!(!c.delete_after_processing);
}

#[test]
fn config_missing_username_is_rejected() {
    let mut raw = full_raw();
    raw.username = None;
    assert_eq!(validate_config(raw), Err(ConfigError::MissingUsername));
}

#[test]
fn config_empty_password_is_rejected() {
    let mut raw = full_raw();
    raw.password = Some(String::new());
    assert_eq!(validate_config(raw), Err(ConfigError::EmptyPassword));
}

#[test]
fn config_missing_directory_is_rejected() {
    let mut raw = full_raw();
    raw.manga_dir = None;
    assert_eq!(validate_config(raw), Err(ConfigError::MissingMangaDir));
}

#[test]
fn config_absent_directory_on_disk_is_rejected() {
    let mut raw = full_raw();
    raw.manga_dir_on_disk = false;
    assert_eq!(validate_config(raw), Err(ConfigError::MangaDirNotOnDisk));
}

#[test]
fn config_nonpositive_size_limit_is_rejected() {
    let mut raw = full_raw();
    raw.size_limit_mib = Some(0);
    assert_eq!(validate_config(raw), Err(ConfigError::NonPositiveSizeLimit));
}

#[test]
fn decimal_rendering_is_exact() {
    assert_eq!(u64_to_string(0), "0");
    assert_eq!(u64_to_string(7), "7");
    assert_eq!(u64_to_string(10), "10");
    assert_eq!(u64_to_string(987654), "987654");
}

#[test]
fn plan_struct_is_usable_directly() {
    let plan = PackagePlan {
        images: vec![img("x", 1)],
        part_index: Some((2, 3)),
    };
    assert_eq!(plan.images[0].file_name, "x");
    assert_eq!(plan.part_index, Some((2, 3)));
}
