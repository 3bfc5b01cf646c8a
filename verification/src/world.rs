//! World bookkeeping: the catalogue of worlds a server hosts, their
//! settings, and the join/leave accounting of player counts.
//!
//! Identifiers and timestamps enter as caller-supplied values, and the
//! world repository persists changes outside this module; the catalogue
//! logic itself is verified here.

use vstd::prelude::*;

verus! {

/// The play mode of a world.
#[derive(Debug, Clone, Copy, PartialEq, Eq, Structural)]
pub enum GameMode {
    Survival,
    Creative,
}

/// How hostile a world is.
#[derive(Debug, Clone, Copy, PartialEq, Eq, Structural)]
pub enum Difficulty {
    Peaceful,
    Easy,
    Normal,
    Hard,
}

/// The rule switches of one world.
#[derive(Debug, Clone, Copy, PartialEq, Eq, Structural)]
pub struct WorldSettings {
    pub allow_pvp: bool,
    pub allow_mob_griefing: bool,
    pub keep_inventory: bool,
    pub natural_regeneration: bool,
    pub difficulty: Difficulty,
    pub weather_enabled: bool,
    pub time_enabled: bool,
    pub mobs_enabled: bool,
    pub physics_enabled: bool,
}

/// Everything known about one world; timestamps are caller-supplied
/// clock readings in seconds.
#[derive(Debug)]
pub struct WorldInfo {
    pub id: String,
    pub name: String,
    pub seed: i64,
    pub game_mode: GameMode,
    pub player_count: usize,
    pub max_players: usize,
    pub created_at: u64,
    pub last_active: u64,
    pub is_online: bool,
    pub settings: WorldSettings,
}

impl Clone for WorldInfo {
    fn clone(&self) -> (c: WorldInfo)
        ensures
            c == *self,
    {
        WorldInfo {
            id: self.id.clone(),
            name: self.name.clone(),
            seed: self.seed,
            game_mode: self.game_mode,
            player_count: self.player_count,
            max_players: self.max_players,
            created_at: self.created_at,
            last_active: self.last_active,
            is_online: self.is_online,
            settings: self.settings,
        }
    }
}

/// One field change to apply to a world.
#[derive(Debug)]
pub enum WorldUpdate {
    PlayerCount(usize),
    LastActive(u64),
    IsOnline(bool),
    Settings(WorldSettings),
}

/// An aggregate snapshot of the catalogue.
#[derive(Debug, Clone, Copy, PartialEq, Eq, Structural)]
pub struct WorldStats {
    pub total_worlds: usize,
    pub online_worlds: usize,
    pub total_players: usize,
}

/// Whether some world of the sequence carries this id.
pub open spec fn has_world_id(s: Seq<WorldInfo>, id: Seq<char>) -> bool {
    exists|i: int| 0 <= i < s.len() && (#[trigger] s[i]).id@ == id
}

/// The index of the world carrying this id; meaningful only when
/// `has_world_id` holds.
pub open spec fn world_id_index(s: Seq<WorldInfo>, id: Seq<char>) -> int {
    choose|i: int| 0 <= i < s.len() && (#[trigger] s[i]).id@ == id
}

/// How many worlds of the catalogue are online.
pub open spec fn count_online(s: Seq<WorldInfo>) -> int
    decreases s.len(),
{
    if s.len() == 0 {
        0
    } else {
        count_online(s.drop_last()) + if s.last().is_online {
            1int
        } else {
            0int
        }
    }
}

/// How many players are in the catalogue's worlds, summed.
pub open spec fn sum_players(s: Seq<WorldInfo>) -> int
    decreases s.len(),
{
    if s.len() == 0 {
        0
    } else {
        sum_players(s.drop_last()) + s.last().player_count as int
    }
}

/// The world `w` with one update applied.
pub open spec fn world_updated(w: WorldInfo, u: WorldUpdate) -> WorldInfo {
    match u {
        WorldUpdate::PlayerCount(count) => WorldInfo { player_count: count, ..w },
        WorldUpdate::LastActive(time) => WorldInfo { last_active: time, ..w },
        WorldUpdate::IsOnline(online) => WorldInfo { is_online: online, ..w },
        WorldUpdate::Settings(settings) => WorldInfo { settings: settings, ..w },
    }
}

/// The catalogue of worlds of one server, at most one per id. What a
/// repository persists and how terrain is generated are collaborators'
/// concerns outside this catalogue.
#[derive(Debug)]
pub struct WorldManager {
    pub worlds: Vec<WorldInfo>,
}

impl WorldManager {
    /// Catalogue invariant: world ids are unique.
    pub open spec fn wf(self) -> bool {
        forall|i: int, j: int|
            0 <= i < j < self.worlds@.len() ==> (#[trigger] self.worlds@[i]).id@ != (
            #[trigger] self.worlds@[j]).id@
    }

    /// An empty catalogue.
    pub fn new() -> (r: WorldManager)
        ensures
            r.wf(),
            r.worlds@.len() == 0,
    {
        WorldManager { worlds: Vec::new() }
    }

    /// The index of the world with this id, if one exists.
    fn find_world(&self, world_id: &String) -> (r: Option<usize>)
        requires
            self.wf(),
        ensures
            match r {
                Some(i) => {
                    &&& i < self.worlds@.len()
                    &&& self.worlds@[i as int].id@ == world_id@
                    &&& has_world_id(self.worlds@, world_id@)
                    &&& i as int == world_id_index(self.worlds@, world_id@)
                },
                None => !has_world_id(self.worlds@, world_id@),
            },
    {
        let n = self.worlds.len();
        let mut i: usize = 0;
        while i < n
            invariant
                self.wf(),
                n == self.worlds@.len(),
                i <= n,
                forall|j: int| 0 <= j < i ==> (#[trigger] self.worlds@[j]).id@ != world_id@,
            decreases n - i,
        {
            if self.worlds[i].id == *world_id {
                proof {
                    assert(self.worlds@[i as int].id@ == world_id@);
                    let j = world_id_index(self.worlds@, world_id@);
                    if j != i as int {
                        assert(self.worlds@[j].id@ == self.worlds@[i as int].id@);
                    }
                }
                return Some(i);
            }
            i += 1;
        }
        None
    }

    /// Registers a new world under a caller-supplied fresh id at time
    /// `now`: empty, capped at 20 players, offline. An id already in
    /// the catalogue is rejected and changes nothing.
    pub fn create_world(
        &mut self,
        id: String,
        name: String,
        seed: i64,
        game_mode: GameMode,
        settings: WorldSettings,
        now: u64,
    ) -> (r: Result<WorldInfo, String>)
        requires
            old(self).wf(),
        ensures
            final(self).wf(),
            match r {
                Ok(w) => {
                    &&& !has_world_id(old(self).worlds@, id@)
                    &&& w.id@ == id@
                    &&& w.name@ == name@
                    &&& w.seed == seed
                    &&& w.game_mode == game_mode
                    &&& w.player_count == 0
                    &&& w.max_players == 20
                    &&& w.created_at == now
                    &&& w.last_active == now
                    &&& !w.is_online
                    &&& w.settings == settings
                    &&& final(self).worlds@.len() == old(self).worlds@.len() + 1
                    &&& forall|j: int|
                        0 <= j < old(self).worlds@.len() ==> final(self).worlds@[j]
                            == #[trigger] old(self).worlds@[j]
                    &&& final(self).worlds@.last() == w
                },
                Err(e) => {
                    &&& has_world_id(old(self).worlds@, id@)
                    &&& e@ == "World already exists"@
                    &&& *final(self) == *old(self)
                },
            },
    {
        let ghost pre = self.worlds@;
        let existing = self.find_world(&id);
        if existing.is_some() {
            return Err("World already exists".to_string());
        }
        let world = WorldInfo {
            id,
            name,
            seed,
            game_mode,
            player_count: 0,
            max_players: 20,
            created_at: now,
            last_active: now,
            is_online: false,
            settings,
        };
        let ret = world.clone();
        self.worlds.push(world);
        proof {
            let post = self.worlds@;
            assert forall|a: int, b: int| 0 <= a < b < post.len() implies (#[trigger] post[a]).id@
                != (#[trigger] post[b]).id@ by {
                if b < post.len() - 1 {
                    assert(pre[a].id@ != pre[b].id@);
                } else {
                    assert(post[a] == pre[a]);
                    assert(pre[a].id@ != post[b].id@);
                }
            }
        }
        Ok(ret)
    }

    /// The world with this id, if one is registered.
    pub fn get_world(&self, world_id: &String) -> (r: Option<WorldInfo>)
        requires
            self.wf(),
        ensures
            match r {
                Some(w) => has_world_id(self.worlds@, world_id@) && w == self.worlds@[
                    world_id_index(self.worlds@, world_id@)
                ],
                None => !has_world_id(self.worlds@, world_id@),
            },
    {
        match self.find_world(world_id) {
            Some(i) => Some(self.worlds[i].clone()),
            None => None,
        }
    }

    /// Every registered world, in registration order.
    pub fn get_all_worlds(&self) -> (r: Vec<WorldInfo>)
        ensures
            r@.len() == self.worlds@.len(),
            forall|k: int| 0 <= k < r@.len() ==> #[trigger] r@[k] == self.worlds@[k],
    {
        let mut out: Vec<WorldInfo> = Vec::new();
        let n = self.worlds.len();
        let mut i: usize = 0;
        while i < n
            invariant
                n == self.worlds@.len(),
                i <= n,
                out@.len() == i,
                forall|k: int| 0 <= k < i ==> #[trigger] out@[k] == self.worlds@[k],
            decreases n - i,
        {
            out.push(self.worlds[i].clone());
            i += 1;
        }
        out
    }

    /// Applies one field change to the world with this id; an unknown
    /// id changes nothing, without error.
    pub fn update_world(&mut self, world_id: &String, updates: WorldUpdate) -> (r: Result<
        (),
        String,
    >)
        requires
            old(self).wf(),
        ensures
            final(self).wf(),
            r is Ok,
            !has_world_id(old(self).worlds@, world_id@) ==> *final(self) == *old(self),
            has_world_id(old(self).worlds@, world_id@) ==> {
                let i = world_id_index(old(self).worlds@, world_id@);
                &&& final(self).worlds@.len() == old(self).worlds@.len()
                &&& forall|j: int|
                    0 <= j < old(self).worlds@.len() && j != i ==> final(self).worlds@[j]
                        == #[trigger] old(self).worlds@[j]
                &&& final(self).worlds@[i] == world_updated(old(self).worlds@[i], updates)
            },
    {
        let ghost pre = self.worlds@;
        match self.find_world(world_id) {
            None => Ok(()),
            Some(i) => {
                match updates {
                    WorldUpdate::PlayerCount(count) => {
                        self.worlds[i].player_count = count;
                    },
                    WorldUpdate::LastActive(time) => {
                        self.worlds[i].last_active = time;
                    },
                    WorldUpdate::IsOnline(online) => {
                        self.worlds[i].is_online = online;
                    },
                    WorldUpdate::Settings(settings) => {
                        self.worlds[i].settings = settings;
                    },
                }
                proof {
                    let post = self.worlds@;
                    assert(post == pre.update(i as int, post[i as int]));
                    assert forall|a: int, b: int| 0 <= a < b < post.len() implies (
                    #[trigger] post[a]).id@ != (#[trigger] post[b]).id@ by {
                        assert(pre[a].id@ != pre[b].id@);
                        assert(post[a].id == pre[a].id && post[b].id == pre[b].id);
                    }
                }
                Ok(())
            },
        }
    }

    /// Unregisters the world with this id; reports whether one existed.
    pub fn delete_world(&mut self, world_id: &String) -> (r: Result<bool, String>)
        requires
            old(self).wf(),
        ensures
            final(self).wf(),
            match r {
                Ok(existed) => {
                    &&& existed == has_world_id(old(self).worlds@, world_id@)
                    &&& !existed ==> *final(self) == *old(self)
                    &&& existed ==> final(self).worlds@ == old(self).worlds@.remove(
                        world_id_index(old(self).worlds@, world_id@),
                    )
                    &&& !has_world_id(final(self).worlds@, world_id@)
                },
                Err(_) => false,
            },
    {
        let ghost pre = self.worlds@;
        match self.find_world(world_id) {
            None => Ok(false),
            Some(i) => {
                self.worlds.remove(i);
                proof {
                    pre.remove_ensures(i as int);
                    let post = self.worlds@;
                    assert forall|a: int, b: int| 0 <= a < b < post.len() implies (
                    #[trigger] post[a]).id@ != (#[trigger] post[b]).id@ by {
                        let a2: int = if a < i as int {
                            a
                        } else {
                            a + 1
                        };
                        let b2: int = if b < i as int {
                            b
                        } else {
                            b + 1
                        };
                        assert(post[a] == pre[a2] && post[b] == pre[b2]);
                        assert(pre[a2].id@ != pre[b2].id@);
                    }
                    if has_world_id(post, world_id@) {
                        let a = world_id_index(post, world_id@);
                        let a2: int = if a < i as int {
                            a
                        } else {
                            a + 1
                        };
                        assert(post[a] == pre[a2]);
                        assert(pre[a2].id@ == world_id@);
                        if a2 < i as int {
                            assert(pre[a2].id@ != pre[i as int].id@);
                        } else {
                            assert(pre[i as int].id@ != pre[a2].id@);
                        }
                    }
                }
                Ok(true)
            },
        }
    }

    /// Admits one player into the world with this id at time `now`: the
    /// count rises by one, the world comes online and its activity
    /// stamp refreshes. A full world and an unknown id are rejected and
    /// change nothing.
    pub fn join_world(&mut self, world_id: &String, now: u64) -> (r: Result<WorldInfo, String>)
        requires
            old(self).wf(),
        ensures
            final(self).wf(),
            match r {
                Ok(w) => {
                    &&& has_world_id(old(self).worlds@, world_id@)
                    &&& {
                        let i = world_id_index(old(self).worlds@, world_id@);
                        let pre_w = old(self).worlds@[i];
                        &&& pre_w.player_count < pre_w.max_players
                        &&& final(self).worlds@.len() == old(self).worlds@.len()
                        &&& forall|j: int|
                            0 <= j < old(self).worlds@.len() && j != i ==> final(self).worlds@[j]
                                == #[trigger] old(self).worlds@[j]
                        &&& final(self).worlds@[i] == WorldInfo {
                            player_count: (pre_w.player_count + 1) as usize,
                            last_active: now,
                            is_online: true,
                            ..pre_w
                        }
                        &&& w == final(self).worlds@[i]
                    }
                },
                Err(e) => {
                    &&& *final(self) == *old(self)
                    &&& (!has_world_id(old(self).worlds@, world_id@) ==> e@ == "World not found"@)
                    &&& (has_world_id(old(self).worlds@, world_id@) ==> {
                        &&& old(self).worlds@[world_id_index(old(self).worlds@, world_id@)].player_count
                            >= old(self).worlds@[world_id_index(old(self).worlds@, world_id@)].max_players
                        &&& e@ == "World is full"@
                    })
                },
            },
    {
        let ghost pre = self.worlds@;
        match self.find_world(world_id) {
            None => Err("World not found".to_string()),
            Some(i) => {
                if self.worlds[i].player_count >= self.worlds[i].max_players {
                    return Err("World is full".to_string());
                }
                let new_count = self.worlds[i].player_count + 1;
                self.worlds[i].player_count = new_count;
                self.worlds[i].last_active = now;
                self.worlds[i].is_online = true;
                proof {
                    let post = self.worlds@;
                    assert(post == pre.update(i as int, post[i as int]));
                    assert forall|a: int, b: int| 0 <= a < b < post.len() implies (
                    #[trigger] post[a]).id@ != (#[trigger] post[b]).id@ by {
                        assert(pre[a].id@ != pre[b].id@);
                        assert(post[a].id == pre[a].id && post[b].id == pre[b].id);
                    }
                }
                Ok(self.worlds[i].clone())
            },
        }
    }

    /// Lets one player out of the world with this id at time `now`: the
    /// count falls by one and the world goes offline when it empties.
    /// An unknown id or an already empty world changes nothing; neither
    /// is an error.
    pub fn leave_world(&mut self, world_id: &String, now: u64) -> (r: Result<(), String>)
        requires
            old(self).wf(),
        ensures
            final(self).wf(),
            r is Ok,
            !has_world_id(old(self).worlds@, world_id@) ==> *final(self) == *old(self),
            has_world_id(old(self).worlds@, world_id@) ==> {
                let i = world_id_index(old(self).worlds@, world_id@);
                let pre_w = old(self).worlds@[i];
                &&& pre_w.player_count == 0 ==> *final(self) == *old(self)
                &&& pre_w.player_count > 0 ==> {
                    &&& final(self).worlds@.len() == old(self).worlds@.len()
                    &&& forall|j: int|
                        0 <= j < old(self).worlds@.len() && j != i ==> final(self).worlds@[j]
                            == #[trigger] old(self).worlds@[j]
                    &&& final(self).worlds@[i] == WorldInfo {
                        player_count: (pre_w.player_count - 1) as usize,
                        last_active: now,
                        is_online: pre_w.player_count > 1 && pre_w.is_online,
                        ..pre_w
                    }
                }
            },
    {
        let ghost pre = self.worlds@;
        match self.find_world(world_id) {
            None => Ok(()),
            Some(i) => {
                if self.worlds[i].player_count == 0 {
                    return Ok(());
                }
                let new_count = self.worlds[i].player_count - 1;
                self.worlds[i].player_count = new_count;
                if new_count == 0 {
                    self.worlds[i].is_online = false;
                }
                self.worlds[i].last_active = now;
                proof {
                    let post = self.worlds@;
                    assert(post == pre.update(i as int, post[i as int]));
                    assert forall|a: int, b: int| 0 <= a < b < post.len() implies (
                    #[trigger] post[a]).id@ != (#[trigger] post[b]).id@ by {
                        assert(pre[a].id@ != pre[b].id@);
                        assert(post[a].id == pre[a].id && post[b].id == pre[b].id);
                    }
                }
                Ok(())
            },
        }
    }

    /// An aggregate snapshot: how many worlds are registered, how many
    /// are online, and the summed player count. The bound only keeps
    /// the sum inside the counter's range.
    pub fn get_world_stats(&self) -> (stats: WorldStats)
        requires
            sum_players(self.worlds@) <= usize::MAX,
        ensures
            stats.total_worlds == self.worlds@.len(),
            stats.online_worlds as int == count_online(self.worlds@),
            stats.total_players as int == sum_players(self.worlds@),
    {
        let ghost ws = self.worlds@;
        let n = self.worlds.len();
        let mut online: usize = 0;
        let mut players: u128 = 0;
        let mut i: usize = 0;
        while i < n
            invariant
                ws == self.worlds@,
                n == ws.len(),
                i <= n,
                online <= i,
                online as int == count_online(ws.subrange(0, i as int)),
                players as int == sum_players(ws.subrange(0, i as int)),
                players <= i * 0x1_0000_0000_0000_0000,
            decreases n - i,
        {
            proof {
                assert(ws.subrange(0, i as int + 1).drop_last() =~= ws.subrange(0, i as int));
                assert(ws.subrange(0, i as int + 1).last() == ws[i as int]);
                assert((i + 1) * 0x1_0000_0000_0000_0000 == i * 0x1_0000_0000_0000_0000
                    + 0x1_0000_0000_0000_0000) by (nonlinear_arith);
            }
            if self.worlds[i].is_online {
                online += 1;
            }
            players += self.worlds[i].player_count as u128;
            i += 1;
        }
        proof {
            assert(ws.subrange(0, n as int) =~= ws);
        }
        WorldStats { total_worlds: n, online_worlds: online, total_players: players as usize }
    }
}

} // verus!
