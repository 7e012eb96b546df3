use fossil::config::{default_buffer_size, FSConfig, FSConfigFile, FSDriverEntry};
use fossil::error::Error;
use fossil::layout::{DEVICE_CAP, DEVICE_SLOT, INIT_CAP, INIT_SLOT, PROBE_VADDR, RING_ENTRIES};
use fossil::text::to_decimal;

#[test]
fn configuration_has_defaults_for_what_is_left_out() {
    let file = FSConfigFile {
        buffer_size: None,
        replacement_policy: None,
        write_policy: None,
        filesystems: vec![FSDriverEntry {
            name: String::from("ext"),
            binary: String::from("extfs.bin"),
            compatible: vec![String::from("ext2"), String::from("ext4")],
            autostart: None,
        }],
    };
    let c = FSConfig::load(Ok(Some(file))).unwrap();
    assert_eq!(c.buffer_size, 2 * 1024 * 1024);
    assert_eq!(c.replacement_policy, "");
    assert_eq!(c.write_policy, "");
    assert_eq!(c.filesystems.len(), 1);
    assert_eq!(c.filesystems[0].binary, "extfs.bin");
    assert_eq!(c.filesystems[0].compatible, vec!["ext2", "ext4"]);
    assert!(!c.filesystems[0].autostart);
}

#[test]
fn configuration_keeps_what_is_set_and_in_order() {
    let driver = |name: &str, autostart| FSDriverEntry {
        name: String::from(name),
        binary: String::from("b"),
        compatible: vec![],
        autostart: Some(autostart),
    };
    let file = FSConfigFile {
        buffer_size: Some(4096),
        replacement_policy: Some(String::from("lru")),
        write_policy: Some(String::from("write-through")),
        filesystems: vec![driver("one", true), driver("two", false), driver("three", true)],
    };
    let c = FSConfig::load(Ok(Some(file))).unwrap();
    assert_eq!(c.buffer_size, 4096);
    assert_eq!(c.replacement_policy, "lru");
    assert_eq!(c.write_policy, "write-through");
    let names: Vec<&str> = c.filesystems.iter().map(|d| d.name.as_str()).collect();
    assert_eq!(names, vec!["one", "two", "three"]);
    assert!(c.filesystems[0].autostart && !c.filesystems[1].autostart);
}

#[test]
fn configuration_that_does_not_parse_is_invalid() {
    assert_eq!(FSConfig::load(Ok(None)).unwrap_err(), Error::InvalidConfig);
    assert_eq!(FSConfig::load(Err(Error::NotFound)).unwrap_err(), Error::NotFound);
}

#[test]
fn default_buffer_is_two_megabytes() {
    assert_eq!(default_buffer_size(), 2097152);
}

#[test]
fn layout_constants() {
    assert_eq!(PROBE_VADDR, 0x5000_0000);
    assert_eq!(RING_ENTRIES, 4);
    assert_eq!((INIT_SLOT, DEVICE_SLOT), (10, 11));
    assert_eq!((INIT_CAP, DEVICE_CAP), (10, 11));
}

#[test]
fn numbers_are_written_in_decimal() {
    for n in [0usize, 1, 9, 10, 19, 100, 12345, usize::MAX] {
        assert_eq!(to_decimal(n), format!("{}", n));
    }
}
