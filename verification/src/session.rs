//! Players and the instances they meet in.

use crate::error::Error;
use crate::identity::{Identity, Timestamp};
use vstd::prelude::*;

verus! {

/// The bit pattern of the single-precision number zero.
pub const ZERO_BITS: u32 = 0;

/// The bit pattern of the single-precision number one hundred: the health a
/// player starts with, and the height at which a player enters an instance.
pub const HUNDRED_BITS: u32 = 0x42C8_0000;

/// A session that players can join.
#[derive(Debug)]
pub struct Instance {
    pub instance_id: u64,
    pub name: String,
    pub max_players: u32,
    pub is_public: bool,
    pub created_at: Timestamp,
    pub owner_identity: Identity,
}

/// An instance as a mathematical value.
pub struct InstanceView {
    pub instance_id: u64,
    pub name: Seq<char>,
    pub max_players: u32,
    pub is_public: bool,
    pub created_at: Timestamp,
    pub owner_identity: Identity,
}

impl View for Instance {
    type V = InstanceView;

    open spec fn view(&self) -> InstanceView {
        InstanceView {
            instance_id: self.instance_id,
            name: self.name@,
            max_players: self.max_players,
            is_public: self.is_public,
            created_at: self.created_at,
            owner_identity: self.owner_identity,
        }
    }
}

impl Clone for Instance {
    fn clone(&self) -> (copy: Instance)
        ensures
            copy == *self,
    {
        Instance {
            instance_id: self.instance_id,
            name: self.name.clone(),
            max_players: self.max_players,
            is_public: self.is_public,
            created_at: self.created_at,
            owner_identity: self.owner_identity,
        }
    }
}

/// A player. Position, rotation and health are single-precision numbers,
/// held as their bit patterns.
#[derive(Debug)]
pub struct Player {
    pub identity: Identity,
    pub username: String,
    pub instance_id: Option<u64>,
    pub position_x: u32,
    pub position_y: u32,
    pub position_z: u32,
    pub rotation_pitch: u32,
    pub rotation_yaw: u32,
    pub rotation_roll: u32,
    pub health: u32,
    pub max_health: u32,
    pub is_online: bool,
    pub last_seen: Timestamp,
}

/// A player as a mathematical value.
pub struct PlayerView {
    pub identity: Identity,
    pub username: Seq<char>,
    pub instance_id: Option<u64>,
    pub position_x: u32,
    pub position_y: u32,
    pub position_z: u32,
    pub rotation_pitch: u32,
    pub rotation_yaw: u32,
    pub rotation_roll: u32,
    pub health: u32,
    pub max_health: u32,
    pub is_online: bool,
    pub last_seen: Timestamp,
}

impl View for Player {
    type V = PlayerView;

    open spec fn view(&self) -> PlayerView {
        PlayerView {
            identity: self.identity,
            username: self.username@,
            instance_id: self.instance_id,
            position_x: self.position_x,
            position_y: self.position_y,
            position_z: self.position_z,
            rotation_pitch: self.rotation_pitch,
            rotation_yaw: self.rotation_yaw,
            rotation_roll: self.rotation_roll,
            health: self.health,
            max_health: self.max_health,
            is_online: self.is_online,
            last_seen: self.last_seen,
        }
    }
}

impl Clone for Player {
    fn clone(&self) -> (copy: Player)
        ensures
            copy == *self,
    {
        Player {
            identity: self.identity,
            username: self.username.clone(),
            instance_id: self.instance_id,
            position_x: self.position_x,
            position_y: self.position_y,
            position_z: self.position_z,
            rotation_pitch: self.rotation_pitch,
            rotation_yaw: self.rotation_yaw,
            rotation_roll: self.rotation_roll,
            health: self.health,
            max_health: self.max_health,
            is_online: self.is_online,
            last_seen: self.last_seen,
        }
    }
}

/// The views of a vector of players, in order.
pub open spec fn players_view(rows: Seq<Player>) -> Seq<PlayerView> {
    rows.map_values(|row: Player| row@)
}

/// The views of a vector of instances, in order.
pub open spec fn instances_view(rows: Seq<Instance>) -> Seq<InstanceView> {
    rows.map_values(|row: Instance| row@)
}

/// Some player has the identity `identity`.
pub open spec fn has_player(players: Seq<PlayerView>, identity: Identity) -> bool {
    exists|i: int| 0 <= i < players.len() && (#[trigger] players[i]).identity == identity
}

/// The place of the player with the identity `identity`.
pub open spec fn player_index(players: Seq<PlayerView>, identity: Identity) -> int {
    choose|i: int| 0 <= i < players.len() && (#[trigger] players[i]).identity == identity
}

/// No two players share an identity.
pub open spec fn players_wf(players: Seq<PlayerView>) -> bool {
    forall|i: int, j: int|
        0 <= i < j < players.len() ==> (#[trigger] players[i]).identity != (
        #[trigger] players[j]).identity
}

/// The player a registration creates: outside every instance, at the origin,
/// in full health and online.
pub open spec fn fresh_player(identity: Identity, username: Seq<char>, now: Timestamp) -> PlayerView {
    PlayerView {
        identity,
        username,
        instance_id: None,
        position_x: ZERO_BITS,
        position_y: ZERO_BITS,
        position_z: ZERO_BITS,
        rotation_pitch: ZERO_BITS,
        rotation_yaw: ZERO_BITS,
        rotation_roll: ZERO_BITS,
        health: HUNDRED_BITS,
        max_health: HUNDRED_BITS,
        is_online: true,
        last_seen: now,
    }
}

/// The players after `change` was applied to the player `identity`;
/// unchanged where there is no such player.
pub open spec fn with_player(
    players: Seq<PlayerView>,
    identity: Identity,
    change: spec_fn(PlayerView) -> PlayerView,
) -> Seq<PlayerView> {
    if has_player(players, identity) {
        let k = player_index(players, identity);
        players.update(k, change(players[k]))
    } else {
        players
    }
}

/// The player counts towards the number of players of the instance: online
/// and inside it.
pub open spec fn present(player: PlayerView, instance_id: u64) -> bool {
    player.instance_id == Some(instance_id) && player.is_online
}

/// The number of players that are online in the instance.
pub open spec fn occupancy(players: Seq<PlayerView>, instance_id: u64) -> nat
    decreases players.len(),
{
    if players.len() == 0 {
        0
    } else {
        occupancy(players.drop_last(), instance_id) + if present(players.last(), instance_id) {
            1nat
        } else {
            0nat
        }
    }
}

/// A player put outside the instance `instance_id`, if inside it.
pub open spec fn evicted(player: PlayerView, instance_id: u64) -> PlayerView {
    if player.instance_id == Some(instance_id) {
        PlayerView { instance_id: None, ..player }
    } else {
        player
    }
}

/// The players after everyone inside the instance was put outside.
pub open spec fn evict_all(players: Seq<PlayerView>, instance_id: u64) -> Seq<PlayerView> {
    players.map_values(|player: PlayerView| evicted(player, instance_id))
}

/// A player's presence set to `online`, seen at `now`.
pub open spec fn seen(player: PlayerView, online: bool, now: Timestamp) -> PlayerView {
    PlayerView { is_online: online, last_seen: now, ..player }
}

/// A player placed at the entry point of an instance.
pub open spec fn entered(player: PlayerView, instance_id: u64) -> PlayerView {
    PlayerView {
        instance_id: Some(instance_id),
        position_x: ZERO_BITS,
        position_y: ZERO_BITS,
        position_z: HUNDRED_BITS,
        ..player
    }
}

/// A player put outside every instance.
pub open spec fn departed(player: PlayerView) -> PlayerView {
    PlayerView { instance_id: None, ..player }
}

/// Where a player stands and looks: six single-precision numbers as bit
/// patterns.
#[derive(Clone, Copy, PartialEq, Eq, Structural, Debug)]
pub struct Transform {
    pub x: u32,
    pub y: u32,
    pub z: u32,
    pub pitch: u32,
    pub yaw: u32,
    pub roll: u32,
}

/// A player moved to `transform`, seen at `now`.
pub open spec fn moved(player: PlayerView, transform: Transform, now: Timestamp) -> PlayerView {
    PlayerView {
        position_x: transform.x,
        position_y: transform.y,
        position_z: transform.z,
        rotation_pitch: transform.pitch,
        rotation_yaw: transform.yaw,
        rotation_roll: transform.roll,
        last_seen: now,
        ..player
    }
}

/// A player whose health is `health`.
pub open spec fn healed(player: PlayerView, health: u32) -> PlayerView {
    PlayerView { health, ..player }
}

/// Among well-formed players the player found for an identity is the only
/// one with that identity.
pub proof fn lemma_player_unique(players: Seq<PlayerView>, k: int)
    requires
        players_wf(players),
        0 <= k < players.len(),
    ensures
        has_player(players, players[k].identity),
        player_index(players, players[k].identity) == k,
{
    let identity = players[k].identity;
    assert(has_player(players, identity));
    let c = player_index(players, identity);
    assert(0 <= c < players.len() && players[c].identity == identity);
    if c < k {
        assert(players[c].identity != players[k].identity);
    } else if k < c {
        assert(players[k].identity != players[c].identity);
    }
}

/// A change that keeps each player's identity keeps the players well-formed.
pub proof fn lemma_players_changed(before: Seq<PlayerView>, after: Seq<PlayerView>)
    requires
        players_wf(before),
        after.len() == before.len(),
        forall|i: int| 0 <= i < before.len() ==> (#[trigger] after[i]).identity == before[i].identity,
    ensures
        players_wf(after),
{
    assert forall|i: int, j: int| 0 <= i < j < after.len() implies (#[trigger] after[i]).identity
        != (#[trigger] after[j]).identity by {
        assert(before[i].identity != before[j].identity);
    }
}

/// The table of players.
pub struct PlayerTable {
    rows: Vec<Player>,
}

impl View for PlayerTable {
    type V = Seq<PlayerView>;

    closed spec fn view(&self) -> Seq<PlayerView> {
        players_view(self.rows@)
    }
}

impl PlayerTable {
    /// The table's invariant: see [`players_wf`].
    pub open spec fn wf(&self) -> bool {
        players_wf(self@)
    }

    /// A table without players.
    pub fn new() -> (table: PlayerTable)
        ensures
            table.wf(),
            table@ == Seq::<PlayerView>::empty(),
    {
        let table = PlayerTable { rows: Vec::new() };
        assert(table@ =~= Seq::<PlayerView>::empty());
        table
    }

    /// The players, in the order of their registration.
    pub fn players(&self) -> (rows: &Vec<Player>)
        ensures
            players_view(rows@) == self@,
    {
        &self.rows
    }

    /// Finds the place of the player with the identity `identity`.
    fn find(&self, identity: Identity) -> (found: Option<usize>)
        requires
            self.wf(),
        ensures
            match found {
                Some(k) => k < self@.len() && has_player(self@, identity) && player_index(
                    self@,
                    identity,
                ) == k,
                None => !has_player(self@, identity),
            },
    {
        let mut i: usize = 0;
        while i < self.rows.len()
            invariant
                self.wf(),
                i <= self.rows.len(),
                forall|k: int| 0 <= k < i ==> (#[trigger] self@[k]).identity != identity,
            decreases self.rows.len() - i,
        {
            assert(self@[i as int] == self.rows[i as int]@);
            if self.rows[i].identity == identity {
                proof {
                    lemma_player_unique(self@, i as int);
                }
                return Some(i);
            }
            i += 1;
        }
        None
    }

    /// Whether a player has the identity `identity`.
    pub fn contains(&self, identity: Identity) -> (known: bool)
        requires
            self.wf(),
        ensures
            known == has_player(self@, identity),
    {
        self.find(identity).is_some()
    }

    /// The player with the identity `identity`.
    pub fn get(&self, identity: Identity) -> (found: Option<&Player>)
        requires
            self.wf(),
        ensures
            match found {
                Some(player) => has_player(self@, identity) && player@ == self@[player_index(
                    self@,
                    identity,
                )],
                None => !has_player(self@, identity),
            },
    {
        match self.find(identity) {
            Some(k) => {
                assert(self@[k as int] == self.rows[k as int]@);
                Some(&self.rows[k])
            },
            None => None,
        }
    }

    /// Adds a player, unless the identity is taken.
    pub fn insert(&mut self, player: Player) -> (result: Result<(), Error>)
        requires
            old(self).wf(),
        ensures
            final(self).wf(),
            result == if has_player(old(self)@, player.identity) {
                Err::<(), Error>(Error::AlreadyExists)
            } else {
                Ok::<(), Error>(())
            },
            final(self)@ == if result is Ok {
                old(self)@.push(player@)
            } else {
                old(self)@
            },
    {
        if self.find(player.identity).is_some() {
            return Err(Error::AlreadyExists);
        }
        self.rows.push(player);
        proof {
            let before = old(self)@;
            let after = self@;
            assert(after =~= before.push(player@));
            assert forall|i: int, j: int| 0 <= i < j < after.len() implies (
            #[trigger] after[i]).identity != (#[trigger] after[j]).identity by {
                if j < before.len() {
                    assert(before[i].identity != before[j].identity);
                } else {
                    assert(before[i].identity != player.identity);
                }
            }
        }
        Ok(())
    }

    /// Sets the presence of the player `identity`, seen at `now`. Returns
    /// whether there is such a player.
    pub fn set_online(&mut self, identity: Identity, online: bool, now: Timestamp) -> (known: bool)
        requires
            old(self).wf(),
        ensures
            final(self).wf(),
            known == has_player(old(self)@, identity),
            final(self)@ == with_player(
                old(self)@,
                identity,
                |player: PlayerView| seen(player, online, now),
            ),
    {
        match self.find(identity) {
            Some(k) => {
                assert(self@[k as int] == self.rows[k as int]@);
                self.rows[k].is_online = online;
                self.rows[k].last_seen = now;
                proof {
                    assert(self@ =~= old(self)@.update(
                        k as int,
                        seen(old(self)@[k as int], online, now),
                    ));
                    lemma_players_changed(old(self)@, self@);
                }
                true
            },
            None => false,
        }
    }

    /// Puts the player `identity` at the entry point of an instance. Returns
    /// whether there is such a player.
    pub fn enter(&mut self, identity: Identity, instance_id: u64) -> (known: bool)
        requires
            old(self).wf(),
        ensures
            final(self).wf(),
            known == has_player(old(self)@, identity),
            final(self)@ == with_player(
                old(self)@,
                identity,
                |player: PlayerView| entered(player, instance_id),
            ),
    {
        match self.find(identity) {
            Some(k) => {
                assert(self@[k as int] == self.rows[k as int]@);
                self.rows[k].instance_id = Some(instance_id);
                self.rows[k].position_x = ZERO_BITS;
                self.rows[k].position_y = ZERO_BITS;
                self.rows[k].position_z = HUNDRED_BITS;
                proof {
                    assert(self@ =~= old(self)@.update(
                        k as int,
                        entered(old(self)@[k as int], instance_id),
                    ));
                    lemma_players_changed(old(self)@, self@);
                }
                true
            },
            None => false,
        }
    }

    /// Puts the player `identity` outside every instance. Returns whether
    /// there is such a player.
    pub fn leave(&mut self, identity: Identity) -> (known: bool)
        requires
            old(self).wf(),
        ensures
            final(self).wf(),
            known == has_player(old(self)@, identity),
            final(self)@ == with_player(
                old(self)@,
                identity,
                |player: PlayerView| departed(player),
            ),
    {
        match self.find(identity) {
            Some(k) => {
                assert(self@[k as int] == self.rows[k as int]@);
                self.rows[k].instance_id = None;
                proof {
                    assert(self@ =~= old(self)@.update(k as int, departed(old(self)@[k as int])));
                    lemma_players_changed(old(self)@, self@);
                }
                true
            },
            None => false,
        }
    }

    /// Writes the position and rotation of the player `identity`, seen at
    /// `now`. Returns whether there is such a player.
    pub fn set_transform(&mut self, identity: Identity, transform: Transform, now: Timestamp) -> (known:
        bool)
        requires
            old(self).wf(),
        ensures
            final(self).wf(),
            known == has_player(old(self)@, identity),
            final(self)@ == with_player(
                old(self)@,
                identity,
                |player: PlayerView| moved(player, transform, now),
            ),
    {
        match self.find(identity) {
            Some(k) => {
                assert(self@[k as int] == self.rows[k as int]@);
                self.rows[k].position_x = transform.x;
                self.rows[k].position_y = transform.y;
                self.rows[k].position_z = transform.z;
                self.rows[k].rotation_pitch = transform.pitch;
                self.rows[k].rotation_yaw = transform.yaw;
                self.rows[k].rotation_roll = transform.roll;
                self.rows[k].last_seen = now;
                proof {
                    assert(self@ =~= old(self)@.update(
                        k as int,
                        moved(old(self)@[k as int], transform, now),
                    ));
                    lemma_players_changed(old(self)@, self@);
                }
                true
            },
            None => false,
        }
    }

    /// Writes the health of the player `identity`. Returns whether there is
    /// such a player.
    pub fn set_health(&mut self, identity: Identity, health: u32) -> (known: bool)
        requires
            old(self).wf(),
        ensures
            final(self).wf(),
            known == has_player(old(self)@, identity),
            final(self)@ == with_player(
                old(self)@,
                identity,
                |player: PlayerView| healed(player, health),
            ),
    {
        match self.find(identity) {
            Some(k) => {
                assert(self@[k as int] == self.rows[k as int]@);
                self.rows[k].health = health;
                proof {
                    assert(self@ =~= old(self)@.update(
                        k as int,
                        healed(old(self)@[k as int], health),
                    ));
                    lemma_players_changed(old(self)@, self@);
                }
                true
            },
            None => false,
        }
    }

    /// Counts the players that are online in the instance.
    pub fn count_present(&self, instance_id: u64) -> (count: usize)
        ensures
            count == occupancy(self@, instance_id),
    {
        let mut count: usize = 0;
        let mut i: usize = 0;
        while i < self.rows.len()
            invariant
                i <= self.rows.len(),
                count <= i,
                count == occupancy(self@.subrange(0, i as int), instance_id),
            decreases self.rows.len() - i,
        {
            proof {
                let upto = self@.subrange(0, i as int + 1);
                assert(upto.drop_last() =~= self@.subrange(0, i as int));
                assert(upto.last() == self.rows[i as int]@);
            }
            let inside = match self.rows[i].instance_id {
                Some(id) => id == instance_id,
                None => false,
            };
            if inside && self.rows[i].is_online {
                count += 1;
            }
            i += 1;
        }
        proof {
            assert(self@.subrange(0, i as int) =~= self@);
        }
        count
    }

    /// Puts every player who is inside the instance outside.
    pub fn evict(&mut self, instance_id: u64)
        requires
            old(self).wf(),
        ensures
            final(self).wf(),
            final(self)@ == evict_all(old(self)@, instance_id),
    {
        let mut i: usize = 0;
        while i < self.rows.len()
            invariant
                i <= self.rows.len(),
                self@.len() == old(self)@.len(),
                forall|k: int| 0 <= k < i ==> #[trigger] self@[k] == evicted(old(self)@[k], instance_id),
                forall|k: int| i <= k < self@.len() ==> #[trigger] self@[k] == old(self)@[k],
            decreases self.rows.len() - i,
        {
            assert(self@[i as int] == self.rows[i as int]@);
            let ghost before = self@;
            let inside = match self.rows[i].instance_id {
                Some(id) => id == instance_id,
                None => false,
            };
            if inside {
                self.rows[i].instance_id = None;
                proof {
                    assert(self@ =~= before.update(i as int, evicted(before[i as int], instance_id)));
                }
            }
            i += 1;
        }
        proof {
            assert(self@ =~= evict_all(old(self)@, instance_id));
            lemma_players_changed(old(self)@, self@);
        }
    }
}

/// The instances as a mathematical value: the instances in the order of
/// their creation, and the id the next instance gets.
pub struct InstancesView {
    pub instances: Seq<InstanceView>,
    pub next_instance_id: u64,
}

/// Some instance has the id `instance_id`.
pub open spec fn has_instance(instances: Seq<InstanceView>, instance_id: u64) -> bool {
    exists|i: int| 0 <= i < instances.len() && (#[trigger] instances[i]).instance_id == instance_id
}

/// The place of the instance with the id `instance_id`.
pub open spec fn instance_index(instances: Seq<InstanceView>, instance_id: u64) -> int {
    choose|i: int| 0 <= i < instances.len() && (#[trigger] instances[i]).instance_id == instance_id
}

/// The ids of the instances differ and lie below the id of the next instance.
pub open spec fn instances_wf(table: InstancesView) -> bool {
    &&& forall|i: int|
        0 <= i < table.instances.len() ==> (#[trigger] table.instances[i]).instance_id
            < table.next_instance_id
    &&& forall|i: int, j: int|
        0 <= i < j < table.instances.len() ==> (#[trigger] table.instances[i]).instance_id != (
        #[trigger] table.instances[j]).instance_id
}

/// Among well-formed instances the instance found under an id is the only
/// one with that id.
pub proof fn lemma_instance_unique(table: InstancesView, k: int)
    requires
        instances_wf(table),
        0 <= k < table.instances.len(),
    ensures
        has_instance(table.instances, table.instances[k].instance_id),
        instance_index(table.instances, table.instances[k].instance_id) == k,
{
    let instances = table.instances;
    let id = instances[k].instance_id;
    assert(has_instance(instances, id));
    let c = instance_index(instances, id);
    assert(0 <= c < instances.len() && instances[c].instance_id == id);
    if c < k {
        assert(instances[c].instance_id != instances[k].instance_id);
    } else if k < c {
        assert(instances[k].instance_id != instances[c].instance_id);
    }
}

/// The instance that `create` makes.
pub open spec fn new_instance(
    table: InstancesView,
    name: Seq<char>,
    max_players: u32,
    is_public: bool,
    created_at: Timestamp,
    owner: Identity,
) -> InstanceView {
    InstanceView {
        instance_id: table.next_instance_id,
        name,
        max_players,
        is_public,
        created_at,
        owner_identity: owner,
    }
}

/// What `create` returns: the id of the new instance, unless the ids have
/// run out.
pub open spec fn create_result(table: InstancesView) -> Result<u64, Error> {
    if table.next_instance_id == u64::MAX {
        Err(Error::LimitReached)
    } else {
        Ok(table.next_instance_id)
    }
}

/// The instances after `create`; unchanged where `create` fails.
pub open spec fn create_state(
    table: InstancesView,
    name: Seq<char>,
    max_players: u32,
    is_public: bool,
    created_at: Timestamp,
    owner: Identity,
) -> InstancesView {
    if create_result(table) is Err {
        table
    } else {
        InstancesView {
            instances: table.instances.push(
                new_instance(table, name, max_players, is_public, created_at, owner),
            ),
            next_instance_id: (table.next_instance_id + 1) as u64,
        }
    }
}

/// What `delete` returns.
pub open spec fn delete_result(table: InstancesView, instance_id: u64, owner: Identity) -> Result<
    (),
    Error,
> {
    if !has_instance(table.instances, instance_id) {
        Err(Error::UnknownInstance)
    } else if table.instances[instance_index(table.instances, instance_id)].owner_identity
        != owner {
        Err(Error::NotOwner)
    } else {
        Ok(())
    }
}

/// The instances after `delete`: the instance is gone; unchanged where
/// `delete` fails.
pub open spec fn delete_state(table: InstancesView, instance_id: u64, owner: Identity) -> InstancesView {
    if delete_result(table, instance_id, owner) is Err {
        table
    } else {
        InstancesView {
            instances: table.instances.remove(instance_index(table.instances, instance_id)),
            ..table
        }
    }
}

/// What `insert` returns: an instance that comes with its id joins unless
/// the id is taken or is the largest number there is.
pub open spec fn restore_result(table: InstancesView, row: InstanceView) -> Result<(), Error> {
    if has_instance(table.instances, row.instance_id) {
        Err(Error::AlreadyExists)
    } else if row.instance_id == u64::MAX {
        Err(Error::LimitReached)
    } else {
        Ok(())
    }
}

/// The instances after `insert`: the instance is the last one, and the next
/// new one gets an id above its id; unchanged where `insert` fails.
pub open spec fn restore_state(table: InstancesView, row: InstanceView) -> InstancesView {
    if restore_result(table, row) is Err {
        table
    } else {
        InstancesView {
            instances: table.instances.push(row),
            next_instance_id: if row.instance_id >= table.next_instance_id {
                (row.instance_id + 1) as u64
            } else {
                table.next_instance_id
            },
        }
    }
}

/// The table of instances.
pub struct InstanceTable {
    rows: Vec<Instance>,
    next_instance_id: u64,
}

impl View for InstanceTable {
    type V = InstancesView;

    closed spec fn view(&self) -> InstancesView {
        InstancesView {
            instances: instances_view(self.rows@),
            next_instance_id: self.next_instance_id,
        }
    }
}

impl InstanceTable {
    /// The table's invariant: see [`instances_wf`].
    pub open spec fn wf(&self) -> bool {
        instances_wf(self@)
    }

    /// A table without instances, whose first instance gets the id 1.
    pub fn new() -> (table: InstanceTable)
        ensures
            table.wf(),
            table@.instances == Seq::<InstanceView>::empty(),
            table@.next_instance_id == 1,
    {
        let table = InstanceTable { rows: Vec::new(), next_instance_id: 1 };
        assert(table@.instances =~= Seq::<InstanceView>::empty());
        table
    }

    /// The instances, in the order of their creation.
    pub fn instances(&self) -> (rows: &Vec<Instance>)
        ensures
            instances_view(rows@) == self@.instances,
    {
        &self.rows
    }

    /// The id the next instance gets.
    pub fn next_instance_id(&self) -> (next: u64)
        ensures
            next == self@.next_instance_id,
    {
        self.next_instance_id
    }

    /// Finds the place of the instance with the id `instance_id`.
    fn find(&self, instance_id: u64) -> (found: Option<usize>)
        requires
            self.wf(),
        ensures
            match found {
                Some(k) => k < self@.instances.len() && has_instance(self@.instances, instance_id)
                    && instance_index(self@.instances, instance_id) == k,
                None => !has_instance(self@.instances, instance_id),
            },
    {
        let mut i: usize = 0;
        while i < self.rows.len()
            invariant
                self.wf(),
                i <= self.rows.len(),
                forall|k: int|
                    0 <= k < i ==> (#[trigger] self@.instances[k]).instance_id != instance_id,
            decreases self.rows.len() - i,
        {
            assert(self@.instances[i as int] == self.rows[i as int]@);
            if self.rows[i].instance_id == instance_id {
                proof {
                    lemma_instance_unique(self@, i as int);
                }
                return Some(i);
            }
            i += 1;
        }
        None
    }

    /// The instance with the id `instance_id`.
    pub fn get(&self, instance_id: u64) -> (found: Option<&Instance>)
        requires
            self.wf(),
        ensures
            match found {
                Some(instance) => has_instance(self@.instances, instance_id) && instance@
                    == self@.instances[instance_index(self@.instances, instance_id)],
                None => !has_instance(self@.instances, instance_id),
            },
    {
        match self.find(instance_id) {
            Some(k) => {
                assert(self@.instances[k as int] == self.rows[k as int]@);
                Some(&self.rows[k])
            },
            None => None,
        }
    }

    /// Takes in an instance that comes with its id, as when the table is
    /// filled from what was saved elsewhere.
    pub fn insert(&mut self, row: Instance) -> (result: Result<(), Error>)
        requires
            old(self).wf(),
        ensures
            final(self).wf(),
            result == restore_result(old(self)@, row@),
            final(self)@ == restore_state(old(self)@, row@),
    {
        if self.find(row.instance_id).is_some() {
            return Err(Error::AlreadyExists);
        }
        if row.instance_id == u64::MAX {
            return Err(Error::LimitReached);
        }
        if row.instance_id >= self.next_instance_id {
            self.next_instance_id = row.instance_id + 1;
        }
        self.rows.push(row);
        proof {
            let before = old(self)@;
            let after = self@;
            assert(after.instances =~= before.instances.push(row@));
            let last = before.instances.len() as int;
            assert forall|i: int| 0 <= i < after.instances.len() implies (
            #[trigger] after.instances[i]).instance_id < after.next_instance_id by {
                if i < last {
                    assert(before.instances[i].instance_id < before.next_instance_id);
                }
            }
            assert forall|i: int, j: int| 0 <= i < j < after.instances.len() implies (
            #[trigger] after.instances[i]).instance_id != (
            #[trigger] after.instances[j]).instance_id by {
                if j < last {
                    assert(before.instances[i].instance_id != before.instances[j].instance_id);
                } else {
                    assert(before.instances[i].instance_id != row.instance_id);
                }
            }
        }
        Ok(())
    }

    /// Creates an instance that belongs to `owner` and returns its id.
    pub fn create(
        &mut self,
        name: String,
        max_players: u32,
        is_public: bool,
        created_at: Timestamp,
        owner: Identity,
    ) -> (result: Result<u64, Error>)
        requires
            old(self).wf(),
        ensures
            final(self).wf(),
            result == create_result(old(self)@),
            final(self)@ == create_state(
                old(self)@,
                name@,
                max_players,
                is_public,
                created_at,
                owner,
            ),
    {
        if self.next_instance_id == u64::MAX {
            return Err(Error::LimitReached);
        }
        let instance_id = self.next_instance_id;
        let row = Instance {
            instance_id,
            name,
            max_players,
            is_public,
            created_at,
            owner_identity: owner,
        };
        self.rows.push(row);
        self.next_instance_id = instance_id + 1;
        proof {
            let before = old(self)@;
            let after = self@;
            assert(after.instances =~= before.instances.push(row@));
            let last = before.instances.len() as int;
            assert forall|i: int| 0 <= i < after.instances.len() implies (
            #[trigger] after.instances[i]).instance_id < after.next_instance_id by {
                if i < last {
                    assert(before.instances[i].instance_id < before.next_instance_id);
                }
            }
            assert forall|i: int, j: int| 0 <= i < j < after.instances.len() implies (
            #[trigger] after.instances[i]).instance_id != (
            #[trigger] after.instances[j]).instance_id by {
                assert(before.instances[i].instance_id < before.next_instance_id);
                if j < last {
                    assert(before.instances[i].instance_id != before.instances[j].instance_id);
                }
            }
        }
        Ok(instance_id)
    }

    /// Deletes an instance of `owner`.
    pub fn delete(&mut self, instance_id: u64, owner: Identity) -> (result: Result<(), Error>)
        requires
            old(self).wf(),
        ensures
            final(self).wf(),
            result == delete_result(old(self)@, instance_id, owner),
            final(self)@ == delete_state(old(self)@, instance_id, owner),
    {
        let k = match self.find(instance_id) {
            Some(k) => k,
            None => {
                return Err(Error::UnknownInstance);
            },
        };
        assert(self@.instances[k as int] == self.rows[k as int]@);
        if self.rows[k].owner_identity != owner {
            return Err(Error::NotOwner);
        }
        self.rows.remove(k);
        proof {
            let before = old(self)@;
            let after = self@;
            assert(after.instances =~= before.instances.remove(k as int));
            assert forall|i: int| 0 <= i < after.instances.len() implies (
            #[trigger] after.instances[i]).instance_id < after.next_instance_id by {
                let from = if i < k { i } else { i + 1 };
                assert(after.instances[i] == before.instances[from]);
                assert(before.instances[from].instance_id < before.next_instance_id);
            }
            assert forall|i: int, j: int| 0 <= i < j < after.instances.len() implies (
            #[trigger] after.instances[i]).instance_id != (
            #[trigger] after.instances[j]).instance_id by {
                let from_i = if i < k { i } else { i + 1 };
                let from_j = if j < k { j } else { j + 1 };
                assert(after.instances[i] == before.instances[from_i]);
                assert(after.instances[j] == before.instances[from_j]);
                assert(before.instances[from_i].instance_id != before.instances[from_j].instance_id);
            }
        }
        Ok(())
    }
}

} // verus!
