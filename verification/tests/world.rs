use strixcraft::world::{Difficulty, GameMode, WorldManager, WorldSettings, WorldUpdate};

fn settings() -> WorldSettings {
    WorldSettings {
        allow_pvp: true,
        allow_mob_griefing: false,
        keep_inventory: false,
        natural_regeneration: true,
        difficulty: Difficulty::Normal,
        weather_enabled: true,
        time_enabled: true,
        mobs_enabled: true,
        physics_enabled: true,
    }
}

#[test]
fn create_world_registers_an_empty_offline_world() {
    let mut manager = WorldManager::new();
    let world = manager
        .create_world("w1".to_string(), "Home".to_string(), 42, GameMode::Survival, settings(), 100)
        .unwrap();
    assert_eq!(world.id, "w1");
    assert_eq!(world.name, "Home");
    assert_eq!(world.seed, 42);
    assert_eq!(world.player_count, 0);
    assert_eq!(world.max_players, 20);
    assert_eq!(world.created_at, 100);
    assert!(!world.is_online);

    let err = manager
        .create_world("w1".to_string(), "Again".to_string(), 7, GameMode::Creative, settings(), 200)
        .unwrap_err();
    assert_eq!(err, "World already exists");
    assert_eq!(manager.get_all_worlds().len(), 1);
}

#[test]
fn worlds_can_be_looked_up_and_listed() {
    let mut manager = WorldManager::new();
    manager
        .create_world("w1".to_string(), "One".to_string(), 1, GameMode::Survival, settings(), 0)
        .unwrap();
    manager
        .create_world("w2".to_string(), "Two".to_string(), 2, GameMode::Creative, settings(), 0)
        .unwrap();
    assert_eq!(manager.get_world(&"w2".to_string()).unwrap().name, "Two");
    assert!(manager.get_world(&"w3".to_string()).is_none());
    let all = manager.get_all_worlds();
    assert_eq!(all.len(), 2);
    assert_eq!(all[0].id, "w1");
    assert_eq!(all[1].id, "w2");
}

#[test]
fn join_counts_players_and_rejects_a_full_world() {
    let mut manager = WorldManager::new();
    manager
        .create_world("w1".to_string(), "One".to_string(), 1, GameMode::Survival, settings(), 0)
        .unwrap();
    let id = "w1".to_string();
    let joined = manager.join_world(&id, 10).unwrap();
    assert_eq!(joined.player_count, 1);
    assert!(joined.is_online);
    assert_eq!(joined.last_active, 10);
    for _ in 1..20 {
        manager.join_world(&id, 11).unwrap();
    }
    assert_eq!(manager.join_world(&id, 12).unwrap_err(), "World is full");
    assert_eq!(manager.join_world(&"w9".to_string(), 12).unwrap_err(), "World not found");
}

#[test]
fn leave_decrements_and_takes_an_emptied_world_offline() {
    let mut manager = WorldManager::new();
    manager
        .create_world("w1".to_string(), "One".to_string(), 1, GameMode::Survival, settings(), 0)
        .unwrap();
    let id = "w1".to_string();
    manager.join_world(&id, 10).unwrap();
    manager.join_world(&id, 10).unwrap();
    manager.leave_world(&id, 20).unwrap();
    let world = manager.get_world(&id).unwrap();
    assert_eq!(world.player_count, 1);
    assert!(world.is_online);
    manager.leave_world(&id, 21).unwrap();
    let world = manager.get_world(&id).unwrap();
    assert_eq!(world.player_count, 0);
    assert!(!world.is_online);
    // leaving an empty world or an unknown one is a silent no-op
    assert!(manager.leave_world(&id, 22).is_ok());
    assert!(manager.leave_world(&"w9".to_string(), 22).is_ok());
    assert_eq!(manager.get_world(&id).unwrap().last_active, 21);
}

#[test]
fn update_world_applies_one_field_change() {
    let mut manager = WorldManager::new();
    manager
        .create_world("w1".to_string(), "One".to_string(), 1, GameMode::Survival, settings(), 0)
        .unwrap();
    let id = "w1".to_string();
    manager.update_world(&id, WorldUpdate::PlayerCount(7)).unwrap();
    manager.update_world(&id, WorldUpdate::LastActive(99)).unwrap();
    manager.update_world(&id, WorldUpdate::IsOnline(true)).unwrap();
    let mut changed = settings();
    changed.difficulty = Difficulty::Hard;
    manager.update_world(&id, WorldUpdate::Settings(changed)).unwrap();
    let world = manager.get_world(&id).unwrap();
    assert_eq!(world.player_count, 7);
    assert_eq!(world.last_active, 99);
    assert!(world.is_online);
    assert_eq!(world.settings.difficulty, Difficulty::Hard);
    // updating an unknown world changes nothing and is not an error
    assert!(manager.update_world(&"w9".to_string(), WorldUpdate::IsOnline(true)).is_ok());
    assert_eq!(manager.get_all_worlds().len(), 1);
}

#[test]
fn delete_world_reports_whether_one_existed() {
    let mut manager = WorldManager::new();
    manager
        .create_world("w1".to_string(), "One".to_string(), 1, GameMode::Survival, settings(), 0)
        .unwrap();
    let id = "w1".to_string();
    assert_eq!(manager.delete_world(&id).unwrap(), true);
    assert_eq!(manager.delete_world(&id).unwrap(), false);
    assert!(manager.get_world(&id).is_none());
}

#[test]
fn world_stats_aggregate_the_catalogue() {
    let mut manager = WorldManager::new();
    manager
        .create_world("w1".to_string(), "One".to_string(), 1, GameMode::Survival, settings(), 0)
        .unwrap();
    manager
        .create_world("w2".to_string(), "Two".to_string(), 2, GameMode::Creative, settings(), 0)
        .unwrap();
    let w1 = "w1".to_string();
    manager.join_world(&w1, 5).unwrap();
    manager.join_world(&w1, 6).unwrap();
    let stats = manager.get_world_stats();
    assert_eq!(stats.total_worlds, 2);
    assert_eq!(stats.online_worlds, 1);
    assert_eq!(stats.total_players, 2);
}
