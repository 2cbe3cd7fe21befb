//! Who is registered, who is online, and who is in which instance.

use crate::database::{Database, DatabaseView};
use crate::error::Error;
use crate::identity::ReducerContext;
use crate::session::{
    create_result, create_state, delete_result, delete_state, departed, entered, evict_all,
    fresh_player, has_instance, has_player, healed, instance_index, moved, occupancy, seen,
    with_player, Player, PlayerView, Transform, HUNDRED_BITS, ZERO_BITS,
};
use vstd::prelude::*;

verus! {

/// The state after `create_instance`.
pub open spec fn create_instance_state(
    db: DatabaseView,
    ctx: ReducerContext,
    name: Seq<char>,
    max_players: u32,
    is_public: bool,
) -> DatabaseView {
    DatabaseView {
        instances: create_state(
            db.instances,
            name,
            max_players,
            is_public,
            ctx.timestamp,
            ctx.sender,
        ),
        ..db
    }
}

/// The state after `delete_instance`: the instance is gone and whoever was
/// inside is outside; unchanged where `delete_instance` fails.
pub open spec fn delete_instance_state(
    db: DatabaseView,
    ctx: ReducerContext,
    instance_id: u64,
) -> DatabaseView {
    if delete_result(db.instances, instance_id, ctx.sender) is Err {
        db
    } else {
        DatabaseView {
            instances: delete_state(db.instances, instance_id, ctx.sender),
            players: evict_all(db.players, instance_id),
            ..db
        }
    }
}

/// What `register_player` returns.
pub open spec fn register_result(db: DatabaseView, ctx: ReducerContext) -> Result<(), Error> {
    if has_player(db.players, ctx.sender) {
        Err(Error::AlreadyExists)
    } else {
        Ok(())
    }
}

/// The state after `register_player`: the caller is a player; unchanged
/// where the caller was one before.
pub open spec fn register_state(
    db: DatabaseView,
    ctx: ReducerContext,
    username: Seq<char>,
) -> DatabaseView {
    if register_result(db, ctx) is Err {
        db
    } else {
        DatabaseView {
            players: db.players.push(fresh_player(ctx.sender, username, ctx.timestamp)),
            ..db
        }
    }
}

/// The state after `change` was applied to the caller's player record;
/// unchanged where the caller has none.
pub open spec fn player_state(
    db: DatabaseView,
    ctx: ReducerContext,
    change: spec_fn(PlayerView) -> PlayerView,
) -> DatabaseView {
    DatabaseView { players: with_player(db.players, ctx.sender, change), ..db }
}

/// What `join_instance` returns.
pub open spec fn join_result(db: DatabaseView, ctx: ReducerContext, instance_id: u64) -> Result<
    (),
    Error,
> {
    if !has_instance(db.instances.instances, instance_id) {
        Err(Error::UnknownInstance)
    } else if occupancy(db.players, instance_id) >= db.instances.instances[instance_index(
        db.instances.instances,
        instance_id,
    )].max_players {
        Err(Error::InstanceFull)
    } else if !has_player(db.players, ctx.sender) {
        Err(Error::UnknownPlayer)
    } else {
        Ok(())
    }
}

/// The state after `join_instance`: the caller stands at the entry point of
/// the instance; unchanged where `join_instance` fails.
pub open spec fn join_state(db: DatabaseView, ctx: ReducerContext, instance_id: u64) -> DatabaseView {
    if join_result(db, ctx, instance_id) is Err {
        db
    } else {
        player_state(db, ctx, |player: PlayerView| entered(player, instance_id))
    }
}

/// Creates an instance that belongs to the caller and returns its id.
pub fn create_instance(
    db: &mut Database,
    ctx: &ReducerContext,
    name: String,
    max_players: u32,
    is_public: bool,
) -> (result: Result<u64, Error>)
    requires
        old(db).wf(),
    ensures
        final(db).wf(),
        result == create_result(old(db)@.instances),
        final(db)@ == create_instance_state(old(db)@, *ctx, name@, max_players, is_public),
{
    db.instances.create(name, max_players, is_public, ctx.timestamp, ctx.sender)
}

/// Deletes an instance of the caller and puts whoever is inside outside.
pub fn delete_instance(db: &mut Database, ctx: &ReducerContext, instance_id: u64) -> (result: Result<
    (),
    Error,
>)
    requires
        old(db).wf(),
    ensures
        final(db).wf(),
        result == delete_result(old(db)@.instances, instance_id, ctx.sender),
        final(db)@ == delete_instance_state(old(db)@, *ctx, instance_id),
{
    match db.instances.delete(instance_id, ctx.sender) {
        Err(error) => Err(error),
        Ok(()) => {
            db.players.evict(instance_id);
            Ok(())
        },
    }
}

/// Registers the caller as a player under `username`: outside every
/// instance, at the origin, in full health and online.
pub fn register_player(db: &mut Database, ctx: &ReducerContext, username: String) -> (result: Result<
    (),
    Error,
>)
    requires
        old(db).wf(),
    ensures
        final(db).wf(),
        result == register_result(old(db)@, *ctx),
        final(db)@ == register_state(old(db)@, *ctx, username@),
{
    let player = Player {
        identity: ctx.sender,
        username,
        instance_id: None,
        position_x: ZERO_BITS,
        position_y: ZERO_BITS,
        position_z: ZERO_BITS,
        rotation_pitch: ZERO_BITS,
        rotation_yaw: ZERO_BITS,
        rotation_roll: ZERO_BITS,
        health: HUNDRED_BITS,
        max_health: HUNDRED_BITS,
        is_online: true,
        last_seen: ctx.timestamp,
    };
    db.players.insert(player)
}

/// Sets whether the caller is online. Returns whether the caller is a
/// player; nothing changes where the caller is none.
pub fn set_player_online(db: &mut Database, ctx: &ReducerContext, online: bool) -> (known: bool)
    requires
        old(db).wf(),
    ensures
        final(db).wf(),
        known == has_player(old(db)@.players, ctx.sender),
        final(db)@ == player_state(
            old(db)@,
            *ctx,
            |player: PlayerView| seen(player, online, ctx.timestamp),
        ),
{
    db.players.set_online(ctx.sender, online, ctx.timestamp)
}

/// Notes that the caller's connection has ended: the caller is offline.
/// Returns whether the caller is a player.
pub fn client_disconnected(db: &mut Database, ctx: &ReducerContext) -> (known: bool)
    requires
        old(db).wf(),
    ensures
        final(db).wf(),
        known == has_player(old(db)@.players, ctx.sender),
        final(db)@ == player_state(
            old(db)@,
            *ctx,
            |player: PlayerView| seen(player, false, ctx.timestamp),
        ),
{
    db.players.set_online(ctx.sender, false, ctx.timestamp)
}

/// Puts the caller at the entry point of an instance that has room.
pub fn join_instance(db: &mut Database, ctx: &ReducerContext, instance_id: u64) -> (result: Result<
    (),
    Error,
>)
    requires
        old(db).wf(),
    ensures
        final(db).wf(),
        result == join_result(old(db)@, *ctx, instance_id),
        final(db)@ == join_state(old(db)@, *ctx, instance_id),
{
    let max_players = match db.instances.get(instance_id) {
        None => {
            return Err(Error::UnknownInstance);
        },
        Some(instance) => instance.max_players,
    };
    let present = db.players.count_present(instance_id);
    if present as u64 >= max_players as u64 {
        return Err(Error::InstanceFull);
    }
    if !db.players.contains(ctx.sender) {
        return Err(Error::UnknownPlayer);
    }
    db.players.enter(ctx.sender, instance_id);
    Ok(())
}

/// Puts the caller outside every instance. Returns whether the caller is a
/// player; nothing changes where the caller is none.
pub fn leave_instance(db: &mut Database, ctx: &ReducerContext) -> (known: bool)
    requires
        old(db).wf(),
    ensures
        final(db).wf(),
        known == has_player(old(db)@.players, ctx.sender),
        final(db)@ == player_state(old(db)@, *ctx, |player: PlayerView| departed(player)),
{
    db.players.leave(ctx.sender)
}

/// Writes where the caller stands and looks. Returns whether the caller is a
/// player; nothing changes where the caller is none.
pub fn update_player_position(db: &mut Database, ctx: &ReducerContext, transform: Transform) -> (known:
    bool)
    requires
        old(db).wf(),
    ensures
        final(db).wf(),
        known == has_player(old(db)@.players, ctx.sender),
        final(db)@ == player_state(
            old(db)@,
            *ctx,
            |player: PlayerView| moved(player, transform, ctx.timestamp),
        ),
{
    db.players.set_transform(ctx.sender, transform, ctx.timestamp)
}

/// Writes the caller's health, which the host has brought between zero and
/// the caller's full health. Returns whether the caller is a player; nothing
/// changes where the caller is none.
pub fn update_player_health(db: &mut Database, ctx: &ReducerContext, health: u32) -> (known: bool)
    requires
        old(db).wf(),
    ensures
        final(db).wf(),
        known == has_player(old(db)@.players, ctx.sender),
        final(db)@ == player_state(old(db)@, *ctx, |player: PlayerView| healed(player, health)),
{
    db.players.set_health(ctx.sender, health)
}

} // verus!
