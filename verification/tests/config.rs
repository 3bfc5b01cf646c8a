use strixcraft::config::ServerConfig;

#[test]
fn default_config_matches_the_reference_values() {
    let config = ServerConfig::default();
    assert_eq!(config.port, 4000);
    assert_eq!(config.host, "127.0.0.1");
    assert_eq!(config.max_players, 100);
    assert_eq!(config.world_save_interval, 300);
    assert_eq!(config.chunk_load_distance, 8);
    assert!(config.enable_physics);
    assert!(config.enable_mobs);
    assert!(config.enable_weather);
    assert!(config.enable_time);
}
