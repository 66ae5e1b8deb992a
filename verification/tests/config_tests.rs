use cargo_sysroot::config::Config;

#[test]
fn default_when_no_config() {
    let config = Config::from_text(None);
    let crates = config.crates("arm-unknown-linux-gnueabihf");
    assert_eq!(crates, vec!["core".to_string()]);
}

#[test]
fn configured_crates_are_sorted_and_deduplicated() {
    let text = "[target.arm-unknown-linux-gnueabihf]\ncrates = [\"rand\", \"alloc\", \"core\", \"alloc\"]\n";
    let config = Config::from_text(Some(text.to_string()));
    let crates = config.crates("arm-unknown-linux-gnueabihf");
    assert_eq!(
        crates,
        vec!["alloc".to_string(), "core".to_string(), "rand".to_string()]
    );
}

#[test]
fn baseline_added_when_configuration_omits_it() {
    let text = "[target.thumbv7m-none-eabi]\ncrates = [\"alloc\"]\n";
    let config = Config::from_text(Some(text.to_string()));
    let crates = config.crates("thumbv7m-none-eabi");
    assert_eq!(crates, vec!["alloc".to_string(), "core".to_string()]);
}

#[test]
fn baseline_listed_once_when_configured_twice() {
    let text = "[target.thumbv7m-none-eabi]\ncrates = [\"core\", \"core\"]\n";
    let config = Config::from_text(Some(text.to_string()));
    let crates = config.crates("thumbv7m-none-eabi");
    assert_eq!(crates, vec!["core".to_string()]);
}

#[test]
fn missing_target_entry_falls_back_to_default() {
    let text = "[target.thumbv7m-none-eabi]\ncrates = [\"alloc\"]\n";
    let config = Config::from_text(Some(text.to_string()));
    let crates = config.crates("arm-unknown-linux-gnueabihf");
    assert_eq!(crates, vec!["core".to_string()]);
}

#[test]
fn malformed_configuration_falls_back_to_default() {
    let text = "this is not [ valid toml =";
    let config = Config::from_text(Some(text.to_string()));
    let crates = config.crates("arm-unknown-linux-gnueabihf");
    assert_eq!(crates, vec!["core".to_string()]);
}

#[test]
fn malformed_entry_falls_back_to_default() {
    let text = "[target.arm-unknown-linux-gnueabihf]\ncrates = \"core\"\n";
    let config = Config::from_text(Some(text.to_string()));
    let crates = config.crates("arm-unknown-linux-gnueabihf");
    assert_eq!(crates, vec!["core".to_string()]);
}
