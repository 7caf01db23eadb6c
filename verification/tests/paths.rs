use toml2json::json::Json;

#[test]
fn output_path_swaps_extension() {
    let json = Json::from_source("config.toml", "[a]\nx = 1\n").unwrap();
    assert_eq!(json.output_path(), "config.json");
}

#[test]
fn output_path_replaces_last_extension_only() {
    let json = Json::from_source("a.toml.toml", "[a]\nx = 1\n").unwrap();
    assert_eq!(json.output_path(), "a.toml.json");
}

#[test]
fn output_path_other_extension_still_swapped() {
    let json = Json::from_source("data.txt", "[a]\nx = 1\n").unwrap();
    assert_eq!(json.output_path(), "data.json");
}

#[test]
fn output_path_without_extension_appends() {
    let json = Json::from_source("settings", "[a]\nx = 1\n").unwrap();
    assert_eq!(json.output_path(), "settings.json");
}
