use citadel::kernel::{BootEntry, EntryError, KernelBzImage, KernelError, KernelInstaller, KernelVersion, all_boot_kernel_versions,
    find_by_name, is_kernel_file_name};

#[test]
fn test_version_parse() {
    let path = "/boot/bzImage-2.2-x";
    let kv = KernelVersion::parse_from_path(path).unwrap();
    assert_eq!(kv.version, 2);
    assert_eq!(kv.major, 2);
    assert_eq!(kv.minor, None);
    let kv2 = KernelVersion::parse_from_str("5.1.1").unwrap();
    let kv3 = KernelVersion::parse_from_str("5.8.1").unwrap();
    let kv4 = KernelVersion::parse_from_str("5.8").unwrap();
    assert!(kv < kv2);
    assert!(kv2 < kv3);
    assert!(kv4 < kv3);
    println!("{} {} {} {}", kv.to_string(), kv2.to_string(), kv3.to_string(), kv4.to_string());
}

#[test]
fn test_bootentry_parse_filename() {
    let fields = BootEntry::parse_filename("foo.heh.2+abc.conf");
    assert_eq!(fields, ("foo.heh".to_string(), Some(2), Some("abc".to_string())));
    let fields = BootEntry::parse_filename("foo+abc.conf");
    assert_eq!(fields, ("foo".to_string(), None, Some("abc".to_string())));
    let fields = BootEntry::parse_filename("foo.2.conf");
    assert_eq!(fields, ("foo".to_string(), Some(2), None));
}

#[test]
fn version_from_path_uses_file_name_only() {
    // the directory holds a '-' too: only the file name may be read
    let kv = KernelVersion::parse_from_path("/boot-x/bzImage-5.8").unwrap();
    assert_eq!((kv.version, kv.major, kv.minor, kv.revision), (5, 8, None, None));
    assert_eq!(KernelVersion::parse_from_path("/boot/bzImage"), None);
}

#[test]
fn version_with_revision_and_text() {
    let kv = KernelVersion::parse_from_str("5.8.1-3").unwrap();
    assert_eq!(kv.revision, Some(3));
    assert_eq!(kv.version(), "5.8.1");
    assert_eq!(kv.to_string(), "5.8.1-3");
    assert_eq!(KernelVersion::parse_from_str("5"), None);
    assert_eq!(KernelVersion::parse_from_str("1.2.3.4"), None);
    // pieces that are not numbers are skipped
    let kv = KernelVersion::parse_from_str("5.x.8").unwrap();
    assert_eq!((kv.version, kv.major, kv.minor), (5, 8, None));
    assert_eq!(KernelVersion::parse_version_field("+7.4294967295"), Some((7, 4294967295, None)));
    assert_eq!(KernelVersion::parse_version_field("7.4294967296"), None);
}

#[test]
fn boot_entry_names_and_titles() {
    let e = BootEntry::from_filename("boot.2+3.conf");
    assert_eq!(e.path(), "/boot/loader/entries/boot.2+3.conf");
    assert!(!e.is_good());
    assert_eq!(e.rotated_index(), Some(3));
    let e = BootEntry::from_filename("boot.conf.conf");
    assert_eq!(e.name, "boot");
    assert_eq!(e.file_name(), "boot.conf");
    assert_eq!(e.rotated_index(), Some(1));
    let k = KernelBzImage::from_path_and_version("/tmp/bzImage", "5.8.1-2", "aa".to_string());
    let e = BootEntry::create_for_kernel("boot", k, "quiet", Some("3".to_string()));
    assert_eq!(e.title, "Subgraph OS (Citadel 5.8.1-2)");
    assert_eq!(e.contents("bzImage-5.8.1-2"), "title Subgraph OS (Citadel 5.8.1-2)\nlinux /bzImage-5.8.1-2\noptions quiet\n");
    let k = KernelBzImage::from_path_and_version("/tmp/bzImage", "x", "aa".to_string());
    let e = BootEntry::create_for_kernel("boot", k, "quiet", None);
    assert_eq!(e.title, "Subgraph OS (Citadel)");
}

fn entry(file: &str, shasum: &str, options: &str) -> BootEntry {
    let mut e = BootEntry::from_filename(file);
    e.bzimage = Some(KernelBzImage::from_path("/boot/bzImage-5.8", shasum.to_string()));
    e.options = options.to_string();
    e
}

#[test]
fn boot_series_order_and_installer() {
    let entries = vec![
        entry("boot.2.conf", "c", "two"),
        entry("other.conf", "d", "o"),
        entry("boot.conf", "a", "zero"),
        entry("boot.1.conf", "b", "one"),
    ];
    assert_eq!(find_by_name(&entries, "boot"), vec![2, 3, 0]);
    let new = KernelBzImage::from_path_and_version("/new/bzImage", "5.9", "z".to_string());
    let inst = KernelInstaller::new(new, entries);
    assert_eq!(inst.boot_entries, vec![2, 3, 0]);
    assert!(!inst.is_already_installed());
    assert_eq!(inst.install_kernel(), Ok(()));
    assert_eq!(inst.generate_options_line(), "zero");
    assert!(inst.needs_rotation());
    assert_eq!(inst.entries_to_remove(), vec![0]);
    let paths = inst.install_kernel_path().unwrap();
    assert_eq!(paths, vec!["/boot/bzImage-5.9", "/boot/bzImage-5.9-1", "/boot/bzImage-5.9-2", "/boot/bzImage-5.9-3"]);

    let entries = vec![entry("boot.conf", "z", "x")];
    let new = KernelBzImage::from_path_and_version("/new/bzImage", "5.9", "z".to_string());
    let inst = KernelInstaller::new(new, entries);
    assert!(inst.is_already_installed());
    assert_eq!(inst.install_kernel(), Err(KernelError::AlreadyInstalled));

    let new = KernelBzImage::from_path_and_version("/new/bzImage", "nothing", "y".to_string());
    let inst = KernelInstaller::new(new, Vec::new());
    assert!(inst.generate_options_line().starts_with("root=/dev/mapper/rootfs"));
    assert_eq!(inst.install_kernel_path().err(), Some(KernelError::NoVersion));
    assert!(inst.entries_to_remove().is_empty());
}

#[test]
fn boot_entry_file_contents() {
    let c = BootEntry::parse_contents("title Subgraph OS\r\nlinux /bzImage-5.8\nbogus line\noptions quiet splash\n").unwrap();
    assert_eq!(c.title, "Subgraph OS");
    assert_eq!(c.kernels, vec!["/boot/bzImage-5.8"]);
    assert_eq!(c.options, "quiet splash");
    assert_eq!(BootEntry::parse_contents("linux /a\noptions b\n").err(), Some(EntryError::NoTitle));
    assert_eq!(BootEntry::parse_contents("title a\noptions b").err(), Some(EntryError::NoKernel));
    assert_eq!(BootEntry::parse_contents("title a\nlinux /k\n").err(), Some(EntryError::NoOptions));
}

#[test]
fn kernel_versions_in_boot() {
    let names = vec![
        "bzImage-5.8.1-2".to_string(),
        "loader".to_string(),
        "bzImage-x".to_string(),
        "bzImage-5.9".to_string(),
        "vmlinuz-5.1".to_string(),
    ];
    assert_eq!(all_boot_kernel_versions(&names), vec!["5.8.1", "5.9"]);
    assert!(is_kernel_file_name("bzImage-1"));
    assert!(!is_kernel_file_name("bzImage"));
}
