use citadel::boot::{BootCommand, SetupStep, boot_command, boot_mount_unit, matches_loader_dev, read_loader_dev_efi_var, setup_steps,
    unique_boot_partition};
use citadel::realm::{Realm, RealmConfig};
use citadel::systemd::Systemd;
use citadel::update::{ImageError, ImageKind, bool_to_yesno, choose_install_partition, clear_prefer_boot, detect_duplicates,
    extra_image_filename, image_kind, is_old_extra_image, is_unused_kernel_image, kernel_image_filename, target_directory,
    update_actions, validate_channel_name, InstallFlags, UpdateAction};

#[test]
fn channels_and_file_names() {
    assert_eq!(validate_channel_name("dev"), Ok(()));
    assert_eq!(validate_channel_name("Dev"), Err(ImageError::InvalidChannel));
    assert_eq!(target_directory("stable"), Ok("/storage/resources/stable".to_string()));
    assert_eq!(target_directory("a/../b").err(), Some(ImageError::InvalidChannel));
    assert_eq!(extra_image_filename(7), "citadel-extra-007.img");
    assert_eq!(extra_image_filename(1234), "citadel-extra-1234.img");
    assert_eq!(kernel_image_filename("5.8.1", 42), "citadel-kernel-5.8.1-042.img");
    assert_eq!(image_kind("rootfs"), Ok(ImageKind::Rootfs));
    assert_eq!(image_kind("kernel"), Ok(ImageKind::Kernel));
    assert_eq!(image_kind("other"), Err(ImageError::UnknownImageType));
    assert_eq!(bool_to_yesno(true), "YES");
    assert_eq!(bool_to_yesno(false), " NO");
}

#[test]
fn stale_images_and_partitions() {
    let versions = vec!["5.8".to_string()];
    assert!(is_unused_kernel_image(true, "kernel", Some("5.7"), &versions));
    assert!(!is_unused_kernel_image(true, "kernel", Some("5.8"), &versions));
    assert!(!is_unused_kernel_image(true, "extra", Some("5.7"), &versions));
    assert!(!is_unused_kernel_image(false, "kernel", Some("5.7"), &versions));
    assert!(!is_unused_kernel_image(true, "kernel", None, &versions));
    assert_eq!(detect_duplicates(&vec!["aa".to_string()], "aa"), Err(ImageError::Duplicate));
    assert_eq!(detect_duplicates(&vec!["aa".to_string()], "bb"), Ok(()));
    assert_eq!(choose_install_partition(&vec![(true, false), (false, true), (false, false)]), Ok(2));
    assert_eq!(choose_install_partition(&vec![(true, false), (false, true)]), Ok(1));
    assert_eq!(choose_install_partition(&vec![(true, false)]), Err(ImageError::NoPartition));
    assert_eq!(clear_prefer_boot(&vec![(true, true), (false, true), (true, false), (true, true)]), vec![0, 3]);
}

#[test]
fn boot_partition_decisions() {
    assert_eq!(boot_command(Some("setup")), Some(BootCommand::Setup));
    assert_eq!(boot_command(Some("start-realms")), Some(BootCommand::StartRealms));
    assert_eq!(boot_command(Some("x")), None);
    assert_eq!(boot_command(None), None);
    assert!(matches_loader_dev(Some("abc"), Some("abc")));
    assert!(!matches_loader_dev(Some("abd"), Some("abc")));
    assert!(matches_loader_dev(None, Some("abc")));
    assert!(matches_loader_dev(Some("abd"), None));
    assert_eq!(unique_boot_partition(&vec![false, true, false]), Some(1));
    assert_eq!(unique_boot_partition(&vec![true, true]), None);
    assert_eq!(unique_boot_partition(&vec![]), None);
    let bytes = vec![7, 0, 0, 0, b'A', 0, b'b', 0, b'-', 0, b'C', 0];
    assert_eq!(read_loader_dev_efi_var(&bytes), "ab-c");
    assert_eq!(boot_mount_unit("/dev/sda1"), "[Unit]\nDescription=Mount /boot partition\n[Mount]\nWhat=/dev/sda1\nWhere=/boot\n");
}

#[test]
fn supervisor_arguments() {
    let mut c = RealmConfig::new("default");
    c.wayland = true;
    c.ephemeral_persistent_dirs = vec!["docs".to_string(), "esc".to_string(), "gone".to_string(), "/etc".to_string()];
    let r = Realm::new("w", c);
    assert_eq!(Systemd::systemctl_start("realm-w.service"), vec!["start", "realm-w.service"]);
    assert_eq!(Systemd::systemctl_stop("realm-w.service"), vec!["stop", "realm-w.service"]);
    assert_eq!(Systemd::is_active(&r), vec!["--quiet", "is-active", "realm-w"]);
    assert_eq!(Systemd::are_realms_active(&vec![r]), vec!["is-active", "realm-w"]);
    assert_eq!(Systemd::active_tokens("active\ninactive\n\n"), vec!["active", "inactive"]);

    let mut c = RealmConfig::new("default");
    c.wayland = true;
    c.ephemeral_persistent_dirs = vec!["docs".to_string(), "esc".to_string(), "gone".to_string(), "/etc".to_string()];
    let r = Realm::new("w", c);
    assert_eq!(
        Systemd::machinectl_exec_shell(&r, false, true, Some("id1")),
        vec!["--quiet", "--setenv=REALM_NAME=w", "--setenv=DESKTOP_STARTUP_ID=id1", "--setenv=GDK_BACKEND=wayland", "shell", "user@w", "/usr/libexec/launch", "/bin/bash"]
    );
    assert_eq!(Systemd::persistent_dir_source(&r, "docs"), "/realms/realm-w/home/docs");
    assert_eq!(Systemd::persistent_dir_source(&r, "/etc"), "/etc");
    let resolved = vec![
        Some("/realms/realm-w/home/docs".to_string()),
        Some("/realms/realm-w/home2/esc".to_string()),
        None,
        Some("/etc".to_string()),
    ];
    assert_eq!(
        Systemd::setup_ephemeral_home(&r, true, false, true, &resolved),
        vec![
            vec!["copy-to", "w", "/realms/skel", "/home/user"],
            vec!["--mkdir", "bind", "w", "/realms/realm-w/home/docs", "/home/user/docs"],
        ]
    );
    assert_eq!(
        Systemd::setup_ephemeral_home(&r, false, true, false, &resolved),
        vec![vec!["copy-to", "w", "/realms/realm-w/skel", "/home/user"]]
    );
    assert!(Systemd::path_within("/a/b", "/a"));
    assert!(!Systemd::path_within("/ab", "/a"));
}

#[test]
fn update_arguments_and_stale_images() {
    let args: Vec<String> = ["a.img", "--skip-sha", "b.img", "--quiet", "--verbose", "c.img", "--choose-rootfs", "d.img"]
        .iter()
        .map(|s| s.to_string())
        .collect();
    let none = InstallFlags { skip_sha: false, no_prefer: false, quiet: false };
    let skip = InstallFlags { skip_sha: true, ..none };
    let skip_quiet = InstallFlags { quiet: true, ..skip };
    assert_eq!(
        update_actions(&args),
        vec![
            UpdateAction::Install("a.img".to_string(), none),
            UpdateAction::Install("b.img".to_string(), skip),
            UpdateAction::Install("c.img".to_string(), skip_quiet),
            UpdateAction::ChooseRootfs,
        ]
    );
    assert!(update_actions(&Vec::new()).is_empty());
    assert!(is_old_extra_image(true, "extra", "aa", "bb"));
    assert!(!is_old_extra_image(true, "extra", "bb", "bb"));
    assert!(!is_old_extra_image(true, "kernel", "aa", "bb"));
    assert!(!is_old_extra_image(false, "extra", "aa", "bb"));
}

#[test]
fn early_boot_setup_steps() {
    assert_eq!(
        setup_steps(false, true),
        vec![SetupStep::SetupKeyring, SetupStep::MountKernelImage, SetupStep::MountExtraImage, SetupStep::MountOverlay, SetupStep::WriteBootAutomount]
    );
    assert_eq!(setup_steps(true, false), vec![SetupStep::LiveSetup, SetupStep::MountKernelImage, SetupStep::MountExtraImage]);
}
