use xivdata::xiv::{request_url_builder, ItemData, WorldName, XivConfig};

#[test]
fn test_get_item_data() {
    let item = ItemData::new("Animal Glue".to_string());
    assert_eq!(item.get_name(), "Animal Glue");
}

#[test]
fn test_world_name() {
    let world = WorldName::new("Lamia".to_string());
    assert_eq!(world.get_name(), "Lamia");
}

#[test]
fn test_request_url_builder_with_key() {
    assert_eq!(
        request_url_builder("https://xivapi.com/item/", "5503".to_string(), "testkey123"),
        "https://xivapi.com/item/5503?private_key=testkey123"
    );
}

#[test]
fn test_xiv_config_holds_key() {
    let config = XivConfig::new("testkey123".to_string());
    assert_eq!(config.api_key(), "testkey123");
}
