use mad_rust_util::config::{config_file_name, config_folder_name};

#[test]
fn config_file_name_adds_json() {
    assert_eq!(config_file_name("mouse"), "mouse.json");
    assert_eq!(config_file_name(""), ".json");
    assert_eq!(config_folder_name(), "mad-rust");
}
