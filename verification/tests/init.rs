use std::path::PathBuf;

use yscloud::boot::{
    is_proc_path,
    get_cmdline_presence, get_cmdline_value, parse_cmdline, parse_init_line, partition_def_to_path,
    plan_boot, str_equals, InitDirective,
};
use yscloud::logging::{level_for_verbosity, should_print_test_logging, LevelFilter};

#[test]
fn test_partition_def_to_path() {
    assert_eq!(
        PathBuf::from(partition_def_to_path("UUID=1234")),
        PathBuf::from("/dev/disk/by-uuid/1234")
    );

    assert_eq!(
        PathBuf::from(partition_def_to_path("LABEL=2345")),
        PathBuf::from("/dev/disk/by-label/2345")
    );

    assert_eq!(
        PathBuf::from(partition_def_to_path("/dev/sda1")),
        PathBuf::from("/dev/sda1")
    );
}

#[test]
fn partition_with_absolute_rest_replaces_base() {
    // Pushing an absolute path onto a PathBuf replaces it.
    assert_eq!(partition_def_to_path("LABEL=/x"), "/x");
    assert_eq!(partition_def_to_path("UUID="), "/dev/disk/by-uuid/");
}

#[test]
fn cmdline_pairs_and_flags() {
    let props = parse_cmdline("root=LABEL=nixos  boot.trace quiet=");
    assert_eq!(props.len(), 3);
    assert_eq!(props[0], ("root".to_string(), Some("LABEL=nixos".to_string())));
    assert_eq!(props[1], ("boot.trace".to_string(), None));
    assert_eq!(props[2], ("quiet".to_string(), Some(String::new())));
    assert!(get_cmdline_presence(&props, "boot.trace"));
    assert!(!get_cmdline_presence(&props, "boot.debugtrace"));
    assert_eq!(get_cmdline_value(&props, "root"), Some("LABEL=nixos".to_string()));
    assert_eq!(get_cmdline_value(&props, "boot.trace"), None);
    assert_eq!(get_cmdline_value(&props, "missing"), None);
}

#[test]
fn cmdline_first_value_wins() {
    let props = parse_cmdline("a=1 a=2");
    assert_eq!(get_cmdline_value(&props, "a"), Some("1".to_string()));
}

#[test]
fn cmdline_empty() {
    assert!(parse_cmdline("").is_empty());
    assert!(parse_cmdline("   ").is_empty());
}

#[test]
fn init_lines() {
    match parse_init_line("LINK /etc/a /nix/store/b c") {
        InitDirective::Link { target, source } => {
            assert_eq!(target, "/etc/a");
            assert_eq!(source, "/nix/store/b c");
        }
        other => panic!("unexpected {:?}", other),
    }
    match parse_init_line("MKDIR /var/lib") {
        InitDirective::Mkdir { dir } => assert_eq!(dir, "/var/lib"),
        other => panic!("unexpected {:?}", other),
    }
    assert!(matches!(parse_init_line("# comment"), InitDirective::Nothing));
    assert!(matches!(parse_init_line("MKDIR"), InitDirective::Nothing));
}

#[test]
fn boot_plan_default() {
    let props = parse_cmdline("root=UUID=abcd nixos-system=/nix/store/sys");
    let plan = plan_boot(&props);
    assert_eq!(plan.log_level, LevelFilter::Error);
    assert_eq!(plan.root_link, Some("/dev/disk/by-uuid/abcd".to_string()));
    assert!(!plan.persist);
    assert_eq!(plan.root_device, "UUID=abcd");
    assert_eq!(plan.rw_store_store, "/_next-root/nix/.rw-store/store");
    assert_eq!(plan.rw_store_work, "/_next-root/nix/.rw-store/work");
    assert_eq!(
        plan.overlay_options,
        "lowerdir=/_next-root/nix/.ro-store,upperdir=/_next-root/nix/.rw-store/store,workdir=/_next-root/nix/.rw-store/work"
    );
    assert_eq!(plan.init_path, Some("/nix/store/sys/init".to_string()));
}

#[test]
fn boot_plan_persist_and_trace() {
    let props = parse_cmdline("boot.trace boot.debugtrace yscloud.personality=persist");
    let plan = plan_boot(&props);
    assert_eq!(plan.log_level, LevelFilter::Debug);
    assert_eq!(plan.root_link, None);
    assert!(plan.persist);
    assert_eq!(plan.root_device, "/dev/loop0");
    assert_eq!(plan.rw_store_store, "/_next-root/persist/.rw-store/store");
    assert_eq!(plan.init_path, None);

    let plan = plan_boot(&parse_cmdline("boot.trace"));
    assert_eq!(plan.log_level, LevelFilter::Info);
    assert_eq!(plan.root_device, "/dev/root");
}

#[test]
fn verbosity_levels() {
    assert_eq!(level_for_verbosity(0), LevelFilter::Error);
    assert_eq!(level_for_verbosity(1), LevelFilter::Warn);
    assert_eq!(level_for_verbosity(2), LevelFilter::Info);
    assert_eq!(level_for_verbosity(3), LevelFilter::Debug);
    assert_eq!(level_for_verbosity(4), LevelFilter::Trace);
    assert_eq!(level_for_verbosity(100), LevelFilter::Trace);
    assert!(!should_print_test_logging(4));
    assert!(should_print_test_logging(5));
}

#[test]
fn string_equality() {
    assert!(str_equals("abc", "abc"));
    assert!(!str_equals("abc", "abd"));
    assert!(!str_equals("abc", "ab"));
}

#[test]
fn proc_paths_are_skipped() {
    assert!(is_proc_path("/proc"));
    assert!(is_proc_path("/proc/1/fd"));
    assert!(is_proc_path("/process"));
    assert!(!is_proc_path("/"));
    assert!(!is_proc_path("/pro"));
    assert!(!is_proc_path("/_next-root/proc"));
}

use yscloud::memfd_options::MemFdOptions;

#[test]
fn memfd_options_builder() {
    let mut o = MemFdOptions::new();
    assert_eq!(o, MemFdOptions { cloexec: false, allow_sealing: false, mode: None, capacity: None });
    o.cloexec(true).allow_sealing(true).set_mode(0o600).with_capacity(4096);
    assert_eq!(o, MemFdOptions { cloexec: true, allow_sealing: true, mode: Some(0o600), capacity: Some(4096) });
    o.cloexec(false).unset_mode();
    assert_eq!(o, MemFdOptions { cloexec: false, allow_sealing: true, mode: None, capacity: Some(4096) });
}
