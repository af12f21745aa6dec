//! The worlds of a server. The first world is the one that players join.

use vstd::prelude::*;
use crate::chat::{spec_chat_json, Chat};
use crate::conv::TypeConverter;
use crate::math::{FPos, Pos, PosError};
use crate::packet::{CbPacket, SbPacket, UUID};
use crate::player::{Delivery, Player, Stack, INVENTORY_SLOTS};
use crate::plugin::Bamboo;
use crate::section::AIR;
use crate::server::{
    are_chunk_packets, is_chat, is_kick, is_login, spec_block_change, spec_conns, spec_evicted,
    spec_find_player, spec_targets, JOIN_TELEPORT_ID,
};
use crate::session::{spec_join_rect, PlayerPosition, VIEW_DISTANCE};
use crate::stream::StreamError;
use crate::version::ProtocolVersion;
use crate::world::{World, WorldGen};

verus! {

/// The height at which players join, in blocks.
pub const SPAWN_HEIGHT: i64 = 60;

/// The height at which players join, in fixed point.
pub const SPAWN_Y: i64 = 245760;

/// What a player that joins causes.
pub struct Joined {
    /// What the player with the same id that was in the world is told.
    pub kicked: Vec<Delivery>,
    /// What the new player is sent.
    pub packets: Vec<CbPacket>,
}

/// Who logs in: the name, the id and the version.
pub struct Login {
    pub username: String,
    pub uuid: UUID,
    pub ver: ProtocolVersion,
}

/// Reads the first packet of a connection: it has to be a login with a
/// version that the server speaks.
pub fn wait_for_login(first: SbPacket) -> (r: Result<Login, StreamError>)
    ensures
        match first {
            SbPacket::Login { username, uuid, protocol_version } => if exists|
                v: ProtocolVersion,
            |
                v.spec_id() == protocol_version {
                r matches Ok(l) && l.username == username && l.uuid == uuid && l.ver.spec_id()
                    == protocol_version
            } else {
                r matches Err(e) && e == StreamError::InvalidData
            },
            _ => r matches Err(e) && e == StreamError::InvalidData,
        },
{
    match first {
        SbPacket::Login { username, uuid, protocol_version } => {
            match ProtocolVersion::from_id(protocol_version) {
                Some(ver) => Ok(Login { username, uuid, ver }),
                None => Err(StreamError::InvalidData),
            }
        },
        _ => Err(StreamError::InvalidData),
    }
}

/// The worlds of a server, and what they share.
pub struct WorldManager {
    worlds: Vec<World>,
    conv: TypeConverter,
    plugins: Bamboo,
}

impl WorldManager {
    /// The worlds. The first is the default world.
    pub closed spec fn spec_worlds(self) -> Seq<World> {
        self.worlds@
    }

    pub closed spec fn spec_conv(self) -> TypeConverter {
        self.conv
    }

    pub closed spec fn spec_plugins(self) -> Bamboo {
        self.plugins
    }

    pub open spec fn wf(self) -> bool {
        &&& self.spec_conv().wf()
        &&& forall|i: int| 0 <= i < self.spec_worlds().len() ==> (#[trigger] self.spec_worlds()[i]).wf()
    }

    /// A server without worlds.
    pub fn new(conv: TypeConverter) -> (m: WorldManager)
        requires
            conv.wf(),
        ensures
            m.wf(),
            m.spec_worlds().len() == 0,
            m.spec_conv() == conv,
            m.spec_plugins() == (Bamboo { on_block_place: None }),
    {
        WorldManager { worlds: Vec::new(), conv, plugins: crate::plugin::instance() }
    }

    /// Adds a world with the terrain `gen`, behind the worlds there are.
    pub fn add_world(&mut self, gen: WorldGen)
        requires
            old(self).wf(),
        ensures
            final(self).wf(),
            final(self).spec_conv() == old(self).spec_conv(),
            final(self).spec_plugins() == old(self).spec_plugins(),
            final(self).spec_worlds().len() == old(self).spec_worlds().len() + 1,
            forall|i: int|
                0 <= i < old(self).spec_worlds().len() ==> #[trigger] final(self).spec_worlds()[i]
                    == old(self).spec_worlds()[i],
            final(self).spec_worlds().last().is_new(gen),
    {
        let w = World::new(gen);
        let ghost before = self.worlds@;
        self.worlds.push(w);
        proof {
            assert forall|i: int| 0 <= i < self.worlds@.len() implies (
            #[trigger] self.worlds@[i]).wf() by {
                if i < before.len() {
                    assert(self.worlds@[i] == before[i]);
                }
            }
        }
    }

    /// How many worlds there are.
    pub fn world_count(&self) -> (n: usize)
        ensures
            n == self.spec_worlds().len(),
    {
        self.worlds.len()
    }

    /// The world that players join.
    pub fn default_world(&self) -> (w: &World)
        requires
            self.spec_worlds().len() > 0,
        ensures
            *w == self.spec_worlds()[0],
    {
        &self.worlds[0]
    }

    /// The world at `index`.
    pub fn world(&self, index: usize) -> (w: &World)
        requires
            index < self.spec_worlds().len(),
        ensures
            *w == self.spec_worlds()[index as int],
    {
        &self.worlds[index]
    }

    /// Takes the world at `index` out, to be changed and put back with
    /// [`WorldManager::put_world`].
    pub fn take_world(&mut self, index: usize) -> (w: World)
        requires
            index < old(self).spec_worlds().len(),
        ensures
            w == old(self).spec_worlds()[index as int],
            final(self).spec_worlds() == old(self).spec_worlds().remove(index as int),
            final(self).spec_conv() == old(self).spec_conv(),
            final(self).spec_plugins() == old(self).spec_plugins(),
    {
        self.worlds.remove(index)
    }

    /// Puts a world in at `index`.
    pub fn put_world(&mut self, index: usize, w: World)
        requires
            index <= old(self).spec_worlds().len(),
        ensures
            final(self).spec_worlds() == old(self).spec_worlds().insert(index as int, w),
            final(self).spec_conv() == old(self).spec_conv(),
            final(self).spec_plugins() == old(self).spec_plugins(),
    {
        self.worlds.insert(index, w);
    }

    /// The table that translates ids between versions.
    pub fn get_block_converter(&self) -> (c: &TypeConverter)
        ensures
            *c == self.spec_conv(),
    {
        &self.conv
    }

    /// The table that translates ids between versions.
    pub fn get_item_converter(&self) -> (c: &TypeConverter)
        ensures
            *c == self.spec_conv(),
    {
        &self.conv
    }

    /// The table that translates ids between versions.
    pub fn get_entity_converter(&self) -> (c: &TypeConverter)
        ensures
            *c == self.spec_conv(),
    {
        &self.conv
    }

    /// The player with the id `uuid`: the one in the first world that has
    /// a player with that id.
    pub fn get_player(&self, uuid: UUID) -> (r: Option<&Player>)
        ensures
            r.is_some() == spec_get_player(self.spec_worlds(), uuid, 0).is_some(),
            r matches Some(p) ==> *p == spec_get_player(self.spec_worlds(), uuid, 0).unwrap(),
    {
        let mut w: usize = 0;
        while w < self.worlds.len()
            invariant
                w <= self.worlds@.len(),
                spec_get_player(self.worlds@, uuid, 0) == spec_get_player(self.worlds@, uuid, w as int),
            decreases self.worlds@.len() - w,
        {
            match self.worlds[w].find_player(uuid) {
                Some(at) => {
                    return Some(self.worlds[w].player(at));
                },
                None => {},
            }
            w += 1;
        }
        None
    }

    /// The callbacks that plugins have registered.
    pub fn get_plugins(&self) -> (p: &Bamboo)
        ensures
            *p == self.spec_plugins(),
    {
        &self.plugins
    }

    /// Registers `handler` for block placements, in place of what was
    /// registered.
    pub fn set_on_block_place(&mut self, handler: u64)
        ensures
            final(self).spec_plugins() == (Bamboo { on_block_place: Some(handler) }),
            final(self).spec_worlds() == old(self).spec_worlds(),
            final(self).spec_conv() == old(self).spec_conv(),
    {
        self.plugins.set_on_block_place(handler);
    }

    /// The chat message `msg` for every player of every world, world after
    /// world, and in each world in the order in which the players joined.
    pub fn broadcast(&self, msg: &Chat) -> (out: Vec<Delivery>)
        ensures
            spec_targets(out@) == spec_all_conns(self.spec_worlds(), self.spec_worlds().len() as int),
            forall|i: int|
                0 <= i < out@.len() ==> is_chat(
                    (#[trigger] out@[i]).packet,
                    spec_chat_json(msg@),
                    0,
                    Some(UUID(0)),
                ),
    {
        let mut out: Vec<Delivery> = Vec::new();
        let mut w: usize = 0;
        assert(spec_targets(out@) =~= spec_all_conns(self.worlds@, 0));
        while w < self.worlds.len()
            invariant
                w <= self.worlds@.len(),
                spec_targets(out@) == spec_all_conns(self.worlds@, w as int),
                forall|i: int|
                    0 <= i < out@.len() ==> is_chat(
                        (#[trigger] out@[i]).packet,
                        spec_chat_json(msg@),
                        0,
                        Some(UUID(0)),
                    ),
            decreases self.worlds@.len() - w,
        {
            let mut more = self.worlds[w].broadcast(msg);
            let ghost before = out@;
            let ghost added = more@;
            out.append(&mut more);
            proof {
                assert(spec_targets(out@) =~= spec_targets(before) + spec_targets(added));
                assert forall|i: int| 0 <= i < out@.len() implies is_chat(
                    (#[trigger] out@[i]).packet,
                    spec_chat_json(msg@),
                    0,
                    Some(UUID(0)),
                ) by {
                    if i < before.len() {
                        assert(out@[i] == before[i]);
                    } else {
                        assert(out@[i] == added[i - before.len()]);
                    }
                }
            }
            w += 1;
        }
        out
    }

    /// Lets a player into the default world, at height 60 above the origin,
    /// with the next entity id of that world. A player with the same id
    /// that is in the world already is turned out (see
    /// [`World::new_player`]); the new player is sent what a join sends (see
    /// [`World::join`]). Without a world nobody can join, and nothing
    /// changes.
    pub fn new_player(&mut self, username: String, uuid: UUID, ver: ProtocolVersion, conn: u64) -> (r:
        Option<Joined>)
        requires
            old(self).wf(),
        ensures
            final(self).wf(),
            final(self).spec_conv() == old(self).spec_conv(),
            final(self).spec_plugins() == old(self).spec_plugins(),
            final(self).spec_worlds().len() == old(self).spec_worlds().len(),
            r.is_some() == (old(self).spec_worlds().len() > 0),
            r.is_none() ==> final(self).spec_worlds() == old(self).spec_worlds(),
            forall|i: int|
                1 <= i < old(self).spec_worlds().len() ==> #[trigger] final(self).spec_worlds()[i]
                    == old(self).spec_worlds()[i],
            r matches Some(j) ==> ({
                let before = old(self).spec_worlds()[0];
                let after = final(self).spec_worlds()[0];
                let at = spec_find_player(before.spec_players(), uuid, 0);
                let kept = if at < 0 {
                    before.spec_players()
                } else {
                    before.spec_players().remove(at)
                };
                let p = after.spec_players().last();
                &&& after.spec_players().len() == kept.len() + 1
                &&& after.spec_players().drop_last() == kept
                &&& p.eid == before.spec_next_eid()
                &&& p.username == username
                &&& p.uuid == uuid
                &&& p.ver == ver
                &&& p.conn == conn
                &&& p.pos == PlayerPosition::spec_new(FPos { x: 0, y: SPAWN_Y, z: 0 })
                &&& p.inv.spec_selected() == 0
                &&& p.inv@ == Seq::new(INVENTORY_SLOTS as nat, |i: int| Stack { item: 0, amount: 0 })
                &&& j.kicked@.len() == if at < 0 {
                    0int
                } else {
                    1int
                }
                &&& at >= 0 ==> j.kicked@[0].conn == before.spec_players()[at].conn && is_kick(
                    j.kicked@[0].packet,
                    spec_evicted(),
                )
                &&& j.packets@.len() == 402
                &&& is_login(j.packets@[0], p.eid)
                &&& are_chunk_packets(
                    j.packets@.subrange(1, 401),
                    spec_join_rect(p.spec_chunk(), VIEW_DISTANCE as int).spec_positions(),
                    after,
                    ver.spec_block(),
                    old(self).spec_conv(),
                )
                &&& j.packets@[401] == (CbPacket::Position {
                    x: 0,
                    y: SPAWN_Y,
                    z: 0,
                    yaw: 0,
                    pitch: 0,
                    flags: 0,
                    teleport_id_v1_9: Some(JOIN_TELEPORT_ID),
                })
            }),
    {
        if self.worlds.len() == 0 {
            return None;
        }
        let ghost before = self.worlds@;
        let mut w = self.worlds.remove(0);
        let eid = w.eid();
        let spawn = FPos { x: 0, y: SPAWN_Y, z: 0 };
        let player = Player::new(eid, username, uuid, conn, ver, spawn);
        let kicked = w.new_player(player);
        let index = w.player_count() - 1;
        let packets = w.join(index, &self.conv);
        let ghost after = w;
        self.worlds.insert(0, w);
        proof {
            assert(self.worlds@ =~= before.update(0, after));
            assert forall|i: int| 0 <= i < self.worlds@.len() implies (
            #[trigger] self.worlds@[i]).wf() by {
                if i > 0 {
                    assert(self.worlds@[i] == before[i]);
                }
            }
            let at = spec_find_player(before[0].spec_players(), uuid, 0);
            let kept = if at < 0 {
                before[0].spec_players()
            } else {
                before[0].spec_players().remove(at)
            };
            assert(after.spec_players() == kept.push(player));
            assert(after.spec_players().drop_last() =~= kept);
        }
        Some(Joined { kicked, packets })
    }

    /// A player digs out the block at `pos` of the world at `index`: the
    /// block becomes air, and every player of that world that has its chunk
    /// in view is told so. A position above or below the world is refused
    /// and nothing changes.
    pub fn dig(&mut self, index: usize, pos: Pos) -> (r: Result<Vec<Delivery>, PosError>)
        requires
            old(self).wf(),
            index < old(self).spec_worlds().len(),
        ensures
            final(self).wf(),
            final(self).spec_conv() == old(self).spec_conv(),
            final(self).spec_plugins() == old(self).spec_plugins(),
            final(self).spec_worlds().len() == old(self).spec_worlds().len(),
            forall|i: int|
                0 <= i < old(self).spec_worlds().len() && i != index ==> #[trigger] final(self).spec_worlds()[i] == old(self).spec_worlds()[i],
            r.is_ok() == pos.in_height(),
            r matches Err(e) ==> e == (PosError { pos }) && final(self).spec_worlds()[index as int].spec_chunks()
                == old(self).spec_worlds()[index as int].spec_chunks(),
            final(self).spec_worlds()[index as int].same_but_blocks(
                old(self).spec_worlds()[index as int],
            ),
            r matches Ok(out) ==> ({
                let before = old(self).spec_worlds()[index as int];
                let after = final(self).spec_worlds()[index as int];
                &&& forall|p: Pos|
                    p.in_height() ==> #[trigger] after.block_at(p) == if p == pos {
                        AIR
                    } else {
                        before.block_at(p)
                    }
                &&& out@ == spec_block_change(
                    before.spec_players(),
                    pos,
                    AIR,
                    old(self).spec_conv(),
                    before.spec_players().len() as int,
                )
            }),
    {
        let ghost before = self.worlds@;
        let mut w = self.worlds.remove(index);
        let r = match w.set_block(pos, AIR) {
            Ok(_) => Ok(w.block_change(pos, AIR, &self.conv)),
            Err(e) => Err(e),
        };
        let ghost after = w;
        self.worlds.insert(index, w);
        proof {
            assert(self.worlds@ =~= before.update(index as int, after));
            assert forall|i: int| 0 <= i < self.worlds@.len() implies (
            #[trigger] self.worlds@[i]).wf() by {
                if i != index {
                    assert(self.worlds@[i] == before[i]);
                }
            }
        }
        r
    }
}

/// The player with the id `uuid` in the first world, from world `from` on,
/// that has a player with that id.
pub open spec fn spec_get_player(worlds: Seq<World>, uuid: UUID, from: int) -> Option<Player>
    decreases worlds.len() - from,
{
    if from < 0 || from >= worlds.len() {
        None
    } else {
        let at = spec_find_player(worlds[from].spec_players(), uuid, 0);
        if at >= 0 {
            Some(worlds[from].spec_players()[at])
        } else {
            spec_get_player(worlds, uuid, from + 1)
        }
    }
}

/// The connections of the players of the first `n` worlds, world after
/// world.
pub open spec fn spec_all_conns(worlds: Seq<World>, n: int) -> Seq<u64>
    decreases n,
{
    if n <= 0 {
        Seq::empty()
    } else {
        spec_all_conns(worlds, n - 1) + spec_conns(worlds[n - 1].spec_players())
    }
}

} // verus!
