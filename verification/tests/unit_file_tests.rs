use rust_disk_cache::config::{load_config, Config, StorageConfig};
use rust_disk_cache::unit_file::{environment_block, service_file_content, service_file_path};

#[test]
fn unit_file_content() {
    let content = service_file_content("My Rust Service", "/usr/bin/trust", "A=1;B=2", "--fast");
    assert_eq!(
        content,
        "[Unit]\nDescription=My Rust Service\nAfter=network.target\n\n[Service]\n\
         Environment=\"ENCRYPTION_ENABLED=true\"\nEnvironment=\"A=1\"\nEnvironment=\"B=2\"\n\
         ExecStart=/usr/bin/trust --fast\n\n[Install]\nWantedBy=multi-user.target\n"
    );
}

#[test]
fn environment_block_splits_at_semicolons() {
    assert_eq!(environment_block(""), "\nEnvironment=\"\"");
    assert_eq!(environment_block("X=1"), "\nEnvironment=\"X=1\"");
    assert_eq!(environment_block("X=1;"), "\nEnvironment=\"X=1\"\nEnvironment=\"\"");
    assert_eq!(
        environment_block(";a;;b"),
        "\nEnvironment=\"\"\nEnvironment=\"a\"\nEnvironment=\"\"\nEnvironment=\"b\""
    );
    let expected: String =
        "p;q=ü;r".split(';').map(|s| format!("\nEnvironment=\"{}\"", s)).collect();
    assert_eq!(environment_block("p;q=ü;r"), expected);
}

#[test]
fn unit_file_path() {
    assert_eq!(service_file_path("my_rust_service"), "/etc/systemd/system/my_rust_service.service");
}

#[test]
fn config_defaults() {
    let c = Config::default();
    assert!(c.encryption_enabled && c.auto_update_enabled);
    let s = StorageConfig::default();
    assert!(s.encryption_enabled);
    assert_eq!(s.cache_size, 1024);
    assert_eq!(s.encryption_key_path, "encryption_key.bin");
}

#[test]
fn env_config() {
    assert!(!load_config(None).encryption_enabled);
    assert!(load_config(Some("true")).encryption_enabled);
    assert!(!load_config(Some("false")).encryption_enabled);
}
