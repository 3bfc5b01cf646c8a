//! Server configuration: the recognized tuning options and their
//! reference defaults.

use vstd::prelude::*;

verus! {

/// The options a running server is configured with; `chunk_load_distance`
/// is the radius, in chunks, of a view query.
#[derive(Debug)]
pub struct ServerConfig {
    pub port: u16,
    pub host: String,
    pub max_players: usize,
    pub world_save_interval: u64,
    pub chunk_load_distance: i32,
    pub enable_physics: bool,
    pub enable_mobs: bool,
    pub enable_weather: bool,
    pub enable_time: bool,
}

impl Default for ServerConfig {
    /// The reference configuration: a local server on port 4000 for
    /// 100 players, saving every five minutes, loading eight chunks
    /// around each player, with every world system enabled.
    fn default() -> (r: ServerConfig)
        ensures
            r.port == 4000,
            r.host@ == "127.0.0.1"@,
            r.max_players == 100,
            r.world_save_interval == 300,
            r.chunk_load_distance == 8,
            r.enable_physics,
            r.enable_mobs,
            r.enable_weather,
            r.enable_time,
    {
        ServerConfig {
            port: 4000,
            host: "127.0.0.1".to_string(),
            max_players: 100,
            world_save_interval: 300,
            chunk_load_distance: 8,
            enable_physics: true,
            enable_mobs: true,
            enable_weather: true,
            enable_time: true,
        }
    }
}

} // verus!
