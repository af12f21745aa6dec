//! What a world tells its players: who joins and who is turned away, which
//! packets a change of the world or a move of a player sends to whom, and
//! the report of the tick time.

use vstd::prelude::*;
use crate::chat::{spec_chat_json, spec_decimal, Chat, Color};
use crate::conv::TypeConverter;
use crate::math::{ChunkPos, Pos};
use crate::packet::{CbPacket, UUID};
use crate::player::{Delivery, Player};
use crate::session::{
    is_unload_packet,
    join_rect,
    movement_packets,
    spec_movement_packets,
    unload_packet,
    view_delta,
    ChunkRect,
    Movement,
    VIEW_DISTANCE,
};
use crate::version::{BlockVersion, ProtocolVersion};
use crate::wire_chunk::{is_chunk_packet, serialize_chunk};
use crate::world::{kept, lemma_players_push, lemma_wf_players, lemma_players_remove, lemma_players_update, World};

verus! {

/// Ticks between two keep-alive packets, and between two reports of the
/// tick time.
pub const TICKS_PER_SECOND: u64 = 20;

/// The id that keep-alive packets carry.
pub const KEEP_ALIVE_ID: i32 = 1234556;

/// The id of the teleport that ends a join.
pub const JOIN_TELEPORT_ID: i32 = 1234;

/// The first position from `i` on of a player with id `uuid`, or -1.
pub open spec fn spec_find_player(players: Seq<Player>, uuid: UUID, i: int) -> int
    decreases players.len() - i,
{
    if i < 0 || i >= players.len() {
        -1
    } else if players[i].uuid == uuid {
        i
    } else {
        spec_find_player(players, uuid, i + 1)
    }
}

/// The position that is found holds the id, and no earlier one does.
pub proof fn lemma_find_player(players: Seq<Player>, uuid: UUID, i: int)
    requires
        0 <= i,
    ensures
        -1 <= spec_find_player(players, uuid, i) < players.len(),
        spec_find_player(players, uuid, i) >= 0 ==> spec_find_player(players, uuid, i) >= i
            && players[spec_find_player(players, uuid, i)].uuid == uuid,
        spec_find_player(players, uuid, i) == -1 ==> forall|j: int|
            i <= j < players.len() ==> (#[trigger] players[j]).uuid != uuid,
    decreases players.len() - i,
{
    if i < players.len() && players[i].uuid != uuid {
        lemma_find_player(players, uuid, i + 1);
    }
}

/// The colour in which a tick time is reported: red above 50 ms, gold above
/// 20, yellow above 10, green otherwise.
pub open spec fn spec_mspt_color(mspt: u32) -> Color {
    if mspt > 50 {
        Color::Red
    } else if mspt > 20 {
        Color::Gold
    } else if mspt > 10 {
        Color::Yellow
    } else {
        Color::BrightGreen
    }
}

#[verifier::when_used_as_spec(spec_mspt_color)]
pub fn mspt_color(mspt: u32) -> (c: Color)
    ensures
        c == spec_mspt_color(mspt),
{
    if mspt > 50 {
        Color::Red
    } else if mspt > 20 {
        Color::Gold
    } else if mspt > 10 {
        Color::Yellow
    } else {
        Color::BrightGreen
    }
}

/// The keep-alive packet that is due at tick `tick`, if one is: every
/// twentieth tick, starting with the first.
pub fn keep_alive(tick: u64) -> (p: Option<CbPacket>)
    ensures
        p == if tick % TICKS_PER_SECOND == 0 {
            Some(
                CbPacket::KeepAlive {
                    keep_alive_id_v1_8: Some(KEEP_ALIVE_ID),
                    keep_alive_id_v1_12_2: Some(KEEP_ALIVE_ID as i64),
                },
            )
        } else {
            None
        },
{
    if tick % TICKS_PER_SECOND == 0 {
        Some(
            CbPacket::KeepAlive {
                keep_alive_id_v1_8: Some(KEEP_ALIVE_ID),
                keep_alive_id_v1_12_2: Some(KEEP_ALIVE_ID as i64),
            },
        )
    } else {
        None
    }
}

/// Whether `p` is the tab-list packet that reports the mean tick time
/// `mspt` under the title `title`: the title in blue as the header, and
/// `mspt: ` with the number, coloured by how large it is, as the footer.
pub open spec fn is_mspt_report(p: CbPacket, title: Seq<char>, mspt: u32) -> bool {
    p matches CbPacket::PlayerlistHeader { header, footer } && header@ == spec_chat_json(
        seq![(title, Some(Color::Blue))],
    ) && footer@ == spec_chat_json(
        seq![
            ("\nmspt: "@, None::<Color>),
            (spec_decimal(mspt as nat), Some(spec_mspt_color(mspt))),
        ],
    )
}

/// The tab-list packet that reports a mean tick time (see
/// [`is_mspt_report`]).
pub fn mspt_report(title: &str, mspt: u32) -> (p: CbPacket)
    ensures
        is_mspt_report(p, title@, mspt),
{
    let mut header = Chat::empty();
    header.add(String::from_str(title), Some(Color::Blue));
    let mut footer = Chat::empty();
    footer.add(String::from_str("\nmspt: "), None);
    footer.add(crate::chat::decimal(mspt), Some(mspt_color(mspt)));
    assert(header@ =~= seq![(title@, Some(Color::Blue))]);
    assert(footer@ =~= seq![
        ("\nmspt: "@, None::<Color>),
        (spec_decimal(mspt as nat), Some(spec_mspt_color(mspt))),
    ]);
    CbPacket::PlayerlistHeader { header: header.to_json(), footer: footer.to_json() }
}

/// Whether `p` is the chat packet with the message `json`, to be shown at
/// `position`, from `sender`.
pub open spec fn is_chat(p: CbPacket, json: Seq<char>, position: u8, sender: Option<UUID>) -> bool {
    p matches CbPacket::Chat { message, position: at, sender_v1_16 } && message@ == json && at
        == position && sender_v1_16 == sender
}

/// Whether `p` is the login that the player with entity id `eid` is sent:
/// creative mode, difficulty 1, the overworld, the level type "default", no
/// limit of players, and the full debug screen.
pub open spec fn is_login(p: CbPacket, eid: i32) -> bool {
    p matches CbPacket::Login {
        entity_id,
        game_mode,
        difficulty,
        dimension,
        level_type,
        max_players,
        reduced_debug_info,
    } && entity_id == eid && game_mode == 1 && difficulty == 1 && dimension == 0 && level_type@
        == "default"@ && max_players == 0 && !reduced_debug_info
}

/// The message for a player that leaves because another player has joined
/// with its id.
pub open spec fn spec_evicted() -> Seq<char> {
    spec_chat_json(seq![("Another player with the same id is already connected!"@, None::<Color>)])
}

/// Whether `p` turns a player out with the message `json`.
pub open spec fn is_kick(p: CbPacket, json: Seq<char>) -> bool {
    p matches CbPacket::KickDisconnect { reason } && reason@ == json
}

/// The connections of the players, in the order in which they joined.
pub open spec fn spec_conns(players: Seq<Player>) -> Seq<u64> {
    Seq::new(players.len(), |i: int| players[i].conn)
}

/// The connections that the deliveries go to.
pub open spec fn spec_targets(out: Seq<Delivery>) -> Seq<u64> {
    Seq::new(out.len(), |i: int| out[i].conn)
}

/// The packets, each addressed to `conn`.
pub open spec fn spec_address(conn: u64, packets: Seq<CbPacket>) -> Seq<Delivery> {
    Seq::new(packets.len(), |i: int| Delivery { conn, packet: packets[i] })
}

/// Addresses every packet to `conn`.
pub fn address(conn: u64, packets: Vec<CbPacket>) -> (out: Vec<Delivery>)
    ensures
        out@ == spec_address(conn, packets@),
{
    let mut packets = packets;
    let ghost all = packets@;
    let mut out: Vec<Delivery> = Vec::new();
    while packets.len() > 0
        invariant
            out@.len() + packets@.len() == all.len(),
            packets@ == all.subrange(out@.len() as int, all.len() as int),
            out@ == spec_address(conn, all.subrange(0, out@.len() as int)),
        decreases packets@.len(),
    {
        let ghost k = out@.len() as int;
        let p = packets.remove(0);
        out.push(Delivery { conn, packet: p });
        proof {
            assert(packets@ =~= all.subrange(k + 1, all.len() as int));
            assert(out@ =~= spec_address(conn, all.subrange(0, k + 1)));
        }
    }
    assert(all.subrange(0, all.len() as int) =~= all);
    out
}

/// What the first `n` players are told when the block at `pos` becomes
/// `ty`: each of them that has the chunk of `pos` in view gets the change,
/// with the block's id in its own version's numbering.
pub open spec fn spec_block_change(
    players: Seq<Player>,
    pos: Pos,
    ty: u32,
    conv: TypeConverter,
    n: int,
) -> Seq<Delivery>
    decreases n,
{
    if n <= 0 {
        Seq::empty()
    } else {
        let o = players[n - 1];
        spec_block_change(players, pos, ty, conv, n - 1) + if o.sees(pos.spec_chunk()) {
            seq![
                Delivery {
                    conn: o.conn,
                    packet: CbPacket::BlockChange {
                        location: pos,
                        type_: conv.spec_block_to_old(ty, o.ver.spec_block()) as i32,
                    },
                },
            ]
        } else {
            Seq::<Delivery>::empty()
        }
    }
}

/// What the first `n` players are told when player `mover` has moved as `m`
/// says: each other player that has the chunk that the mover left, or the
/// chunk that it entered, in view gets the packets for its own version.
pub open spec fn spec_fanout(players: Seq<Player>, mover: int, m: Movement, n: int) -> Seq<Delivery>
    decreases n,
{
    if n <= 0 {
        Seq::empty()
    } else {
        let o = players[n - 1];
        spec_fanout(players, mover, m, n - 1) + if n - 1 != mover && (o.sees(m.old_chunk) || o.sees(
            m.new_chunk,
        )) {
            spec_address(
                o.conn,
                spec_movement_packets(
                    players[mover].eid,
                    o.ver,
                    players[mover].pos,
                    m.pos_changed,
                    m.look_changed,
                ),
            )
        } else {
            Seq::<Delivery>::empty()
        }
    }
}

/// What one tick of a player sends.
pub struct TickOutput {
    /// To the players that see the player move.
    pub movement: Vec<Delivery>,
    /// To the player itself: the chunks that came into view.
    pub loaded: Vec<CbPacket>,
    /// To the player itself: the chunks that went out of view.
    pub unloaded: Vec<CbPacket>,
}

/// Whether `packets` are the chunk packets for the chunks of `cells`, one
/// for each and in the same order, as `world` stores them.
pub open spec fn are_chunk_packets(
    packets: Seq<CbPacket>,
    cells: Seq<ChunkPos>,
    world: World,
    ver: BlockVersion,
    conv: TypeConverter,
) -> bool {
    &&& packets.len() == cells.len()
    &&& forall|k: int|
        0 <= k < cells.len() ==> #[trigger] chunk_packet_at(packets, cells, world, ver, conv, k)
}

/// Whether packet `k` is the chunk packet for chunk `k`, as `world` stores
/// it.
pub open spec fn chunk_packet_at(
    packets: Seq<CbPacket>,
    cells: Seq<ChunkPos>,
    world: World,
    ver: BlockVersion,
    conv: TypeConverter,
    k: int,
) -> bool {
    world.loaded(cells[k]) && is_chunk_packet(
        packets[k],
        cells[k],
        world.spec_chunks()[cells[k].spec_key()],
        ver,
        conv,
    )
}

/// One more chunk packet, for a chunk of a world that has kept the chunks it
/// had.
pub proof fn lemma_packets_step(
    packets: Seq<CbPacket>,
    cells: Seq<ChunkPos>,
    k: int,
    before: World,
    after: World,
    p: CbPacket,
    ver: BlockVersion,
    conv: TypeConverter,
)
    requires
        0 <= k < cells.len(),
        are_chunk_packets(packets, cells.take(k), before, ver, conv),
        kept(before.spec_chunks(), after.spec_chunks()),
        after.loaded(cells[k]),
        is_chunk_packet(p, cells[k], after.spec_chunks()[cells[k].spec_key()], ver, conv),
    ensures
        are_chunk_packets(packets.push(p), cells.take(k + 1), after, ver, conv),
{
    let more = packets.push(p);
    let upto = cells.take(k + 1);
    assert forall|j: int| 0 <= j < upto.len() implies #[trigger] chunk_packet_at(
        more,
        upto,
        after,
        ver,
        conv,
        j,
    ) by {
        if j < k {
            assert(chunk_packet_at(packets, cells.take(k), before, ver, conv, j));
            assert(before.spec_chunks().contains_key(upto[j].spec_key()));
        }
    }
}

/// A world that has kept its chunks has kept the chunk packets that were
/// made of them.
pub proof fn lemma_packets_kept(
    packets: Seq<CbPacket>,
    cells: Seq<ChunkPos>,
    before: World,
    after: World,
    ver: BlockVersion,
    conv: TypeConverter,
)
    requires
        are_chunk_packets(packets, cells, before, ver, conv),
        kept(before.spec_chunks(), after.spec_chunks()),
    ensures
        are_chunk_packets(packets, cells, after, ver, conv),
{
    assert forall|j: int| 0 <= j < cells.len() implies #[trigger] chunk_packet_at(
        packets,
        cells,
        after,
        ver,
        conv,
        j,
    ) by {
        assert(chunk_packet_at(packets, cells, before, ver, conv, j));
        assert(before.spec_chunks().contains_key(cells[j].spec_key()));
    }
}

/// Chunk packets for one list of chunks followed by chunk packets for
/// another are chunk packets for the two lists joined.
pub proof fn lemma_packets_join(
    a: Seq<CbPacket>,
    cells_a: Seq<ChunkPos>,
    b: Seq<CbPacket>,
    cells_b: Seq<ChunkPos>,
    world: World,
    ver: BlockVersion,
    conv: TypeConverter,
)
    requires
        are_chunk_packets(a, cells_a, world, ver, conv),
        are_chunk_packets(b, cells_b, world, ver, conv),
    ensures
        are_chunk_packets(a + b, cells_a + cells_b, world, ver, conv),
{
    let all = a + b;
    let cells = cells_a + cells_b;
    assert forall|j: int| 0 <= j < cells.len() implies #[trigger] chunk_packet_at(
        all,
        cells,
        world,
        ver,
        conv,
        j,
    ) by {
        if j < a.len() {
            assert(chunk_packet_at(a, cells_a, world, ver, conv, j));
        } else {
            assert(chunk_packet_at(b, cells_b, world, ver, conv, j - a.len()));
        }
    }
}

/// Unload packets for one list of chunks followed by unload packets for
/// another are unload packets for the two lists joined.
pub proof fn lemma_unload_join(
    a: Seq<CbPacket>,
    cells_a: Seq<ChunkPos>,
    b: Seq<CbPacket>,
    cells_b: Seq<ChunkPos>,
    ver: ProtocolVersion,
)
    requires
        are_unload_packets(a, cells_a, ver),
        are_unload_packets(b, cells_b, ver),
    ensures
        are_unload_packets(a + b, cells_a + cells_b, ver),
{
    let all = a + b;
    let cells = cells_a + cells_b;
    assert forall|j: int| 0 <= j < cells.len() implies #[trigger] unload_packet_at(
        all,
        cells,
        ver,
        j,
    ) by {
        if j < a.len() {
            assert(unload_packet_at(a, cells_a, ver, j));
        } else {
            assert(unload_packet_at(b, cells_b, ver, j - a.len()));
        }
    }
}

/// Whether `packets` tell a client on `ver` to forget the chunks of
/// `cells`, one for each and in the same order.
pub open spec fn are_unload_packets(
    packets: Seq<CbPacket>,
    cells: Seq<ChunkPos>,
    ver: ProtocolVersion,
) -> bool {
    &&& packets.len() == cells.len()
    &&& forall|k: int| 0 <= k < cells.len() ==> #[trigger] unload_packet_at(packets, cells, ver, k)
}

/// Whether packet `k` tells a client on `ver` to forget chunk `k`.
pub open spec fn unload_packet_at(
    packets: Seq<CbPacket>,
    cells: Seq<ChunkPos>,
    ver: ProtocolVersion,
    k: int,
) -> bool {
    is_unload_packet(packets[k], ver, cells[k])
}

/// The packets that unload the chunks of `rect`.
pub fn unload_rect(rect: ChunkRect, ver: ProtocolVersion) -> (out: Vec<CbPacket>)
    requires
        rect.spec_count() <= 0x1000_0000,
    ensures
        are_unload_packets(out@, rect.spec_positions(), ver),
{
    let cells = rect.positions();
    let mut out: Vec<CbPacket> = Vec::new();
    let mut k: usize = 0;
    while k < cells.len()
        invariant
            k <= cells@.len(),
            out@.len() == k,
            cells@ == rect.spec_positions(),
            forall|j: int| 0 <= j < k ==> #[trigger] unload_packet_at(out@, cells@, ver, j),
        decreases cells@.len() - k,
    {
        let ghost out0 = out@;
        out.push(unload_packet(ver, cells[k]));
        proof {
            assert forall|j: int| 0 <= j < k + 1 implies #[trigger] unload_packet_at(
                out@,
                cells@,
                ver,
                j,
            ) by {
                if j < k {
                    assert(unload_packet_at(out0, cells@, ver, j));
                }
            }
        }
        k += 1;
    }
    out
}

/// Whether the world `after` has at least the chunks of `before`, each as
/// it was, and differs in nothing but its chunks.
pub open spec fn grew_from(after: World, before: World) -> bool {
    &&& after.same_but_blocks(before)
    &&& kept(before.spec_chunks(), after.spec_chunks())
    &&& forall|p: Pos| p.in_height() ==> #[trigger] after.block_at(p) == before.block_at(p)
}

impl World {
    /// How many players the world has.
    pub fn player_count(&self) -> (n: usize)
        ensures
            n == self.spec_players().len(),
    {
        self.players.len()
    }

    /// The players, in the order in which they joined.
    pub fn players(&self) -> (p: &Vec<Player>)
        ensures
            p@ == self.spec_players(),
    {
        &self.players
    }

    /// The player at `index`.
    pub fn player(&self, index: usize) -> (p: &Player)
        requires
            index < self.spec_players().len(),
        ensures
            *p == self.spec_players()[index as int],
    {
        &self.players[index]
    }

    /// The position of the player with id `uuid`, if it is in the world.
    pub fn find_player(&self, uuid: UUID) -> (r: Option<usize>)
        ensures
            r.is_some() == (spec_find_player(self.spec_players(), uuid, 0) >= 0),
            r matches Some(i) ==> i == spec_find_player(self.spec_players(), uuid, 0) && i
                < self.spec_players().len() && self.spec_players()[i as int].uuid == uuid,
            r.is_none() ==> forall|j: int|
                0 <= j < self.spec_players().len() ==> (#[trigger] self.spec_players()[j]).uuid
                    != uuid,
    {
        let mut i: usize = 0;
        proof {
            lemma_find_player(self.players@, uuid, 0);
        }
        while i < self.players.len()
            invariant
                i <= self.players@.len(),
                spec_find_player(self.players@, uuid, 0) == spec_find_player(
                    self.players@,
                    uuid,
                    i as int,
                ),
            decreases self.players@.len() - i,
        {
            if self.players[i].uuid.0 == uuid.0 {
                return Some(i);
            }
            i += 1;
        }
        None
    }

    /// Lets `player` into the world. A player with the same id that is in
    /// the world already is taken out of it and told that another player
    /// with its id has connected; that packet is what is returned.
    pub fn new_player(&mut self, player: Player) -> (out: Vec<Delivery>)
        requires
            old(self).wf(),
            player.wf(),
        ensures
            final(self).wf(),
            final(self).spec_chunks() == old(self).spec_chunks(),
            final(self).spec_gen() == old(self).spec_gen(),
            final(self).spec_next_eid() == old(self).spec_next_eid(),
            final(self).spec_mspt() == old(self).spec_mspt(),
            final(self).spec_ticks() == old(self).spec_ticks(),
            ({
                let at = spec_find_player(old(self).spec_players(), player.uuid, 0);
                if at < 0 {
                    final(self).spec_players() == old(self).spec_players().push(player) && out@.len()
                        == 0
                } else {
                    &&& final(self).spec_players() == old(self).spec_players().remove(at).push(
                        player,
                    )
                    &&& out@.len() == 1
                    &&& out@[0].conn == old(self).spec_players()[at].conn
                    &&& is_kick(out@[0].packet, spec_evicted())
                }
            }),
    {
        let mut out: Vec<Delivery> = Vec::new();
        let ghost before = self.players@;
        match self.find_player(player.uuid) {
            Some(at) => {
                let evicted = self.players.remove(at);
                let msg = Chat::new(
                    String::from_str("Another player with the same id is already connected!"),
                );
                out.push(evicted.disconnect(&msg));
                proof {
                    lemma_players_remove(before, at as int);
                    lemma_players_push(before.remove(at as int), player);
                }
            },
            None => {
                proof {
                    lemma_players_push(before, player);
                }
            },
        }
        self.players.push(player);
        proof {
            lemma_wf_players(*old(self), *self);
        }
        out
    }

    /// Takes the player with id `uuid` out of the world, if it is there.
    pub fn remove_player(&mut self, uuid: UUID) -> (r: Option<Player>)
        requires
            old(self).wf(),
        ensures
            final(self).wf(),
            final(self).spec_chunks() == old(self).spec_chunks(),
            final(self).spec_gen() == old(self).spec_gen(),
            final(self).spec_next_eid() == old(self).spec_next_eid(),
            final(self).spec_mspt() == old(self).spec_mspt(),
            final(self).spec_ticks() == old(self).spec_ticks(),
            ({
                let at = spec_find_player(old(self).spec_players(), uuid, 0);
                if at < 0 {
                    r.is_none() && final(self).spec_players() == old(self).spec_players()
                } else {
                    r == Some(old(self).spec_players()[at]) && final(self).spec_players() == old(self).spec_players().remove(at)
                }
            }),
    {
        let ghost before = self.players@;
        match self.find_player(uuid) {
            Some(at) => {
                let p = self.players.remove(at);
                proof {
                    lemma_players_remove(before, at as int);
                    lemma_wf_players(*old(self), *self);
                }
                Some(p)
            },
            None => None,
        }
    }

    /// The chat message `msg` for every player of the world, in the order
    /// in which they joined.
    pub fn broadcast(&self, msg: &Chat) -> (out: Vec<Delivery>)
        ensures
            spec_targets(out@) == spec_conns(self.spec_players()),
            forall|i: int|
                0 <= i < out@.len() ==> is_chat(
                    (#[trigger] out@[i]).packet,
                    spec_chat_json(msg@),
                    0,
                    Some(UUID(0)),
                ),
    {
        let mut out: Vec<Delivery> = Vec::new();
        let mut i: usize = 0;
        while i < self.players.len()
            invariant
                i <= self.players@.len(),
                out@.len() == i,
                forall|j: int|
                    0 <= j < i ==> (#[trigger] out@[j]).conn == self.players@[j].conn && is_chat(
                        out@[j].packet,
                        spec_chat_json(msg@),
                        0,
                        Some(UUID(0)),
                    ),
            decreases self.players@.len() - i,
        {
            out.push(
                Delivery {
                    conn: self.players[i].conn,
                    packet: CbPacket::Chat {
                        message: msg.to_json(),
                        position: 0,
                        sender_v1_16: Some(UUID(0)),
                    },
                },
            );
            i += 1;
        }
        out
    }

    /// What the players are told when the block at `pos` has become `ty`
    /// (see [`spec_block_change`]).
    pub fn block_change(&self, pos: Pos, ty: u32, conv: &TypeConverter) -> (out: Vec<Delivery>)
        requires
            self.wf(),
            conv.wf(),
        ensures
            out@ == spec_block_change(
                self.spec_players(),
                pos,
                ty,
                *conv,
                self.spec_players().len() as int,
            ),
    {
        let mut out: Vec<Delivery> = Vec::new();
        let chunk = pos.chunk();
        let mut i: usize = 0;
        while i < self.players.len()
            invariant
                i <= self.players@.len(),
                self.wf(),
                conv.wf(),
                chunk == pos.spec_chunk(),
                out@ == spec_block_change(self.players@, pos, ty, *conv, i as int),
            decreases self.players@.len() - i,
        {
            let o = &self.players[i];
            let ghost before = out@;
            if o.in_view(chunk) {
                let old_id = conv.block_to_old(ty, o.ver.block());
                out.push(
                    Delivery {
                        conn: o.conn,
                        packet: CbPacket::BlockChange {
                            location: pos,
                            type_: #[verifier::truncate]
                            (old_id as i32),
                        },
                    },
                );
                assert(out@ =~= spec_block_change(self.players@, pos, ty, *conv, i + 1));
            } else {
                assert(before + Seq::<Delivery>::empty() =~= before);
            }
            i += 1;
        }
        out
    }

    /// What the other players are told when player `mover` has moved as
    /// `m` says (see [`spec_fanout`]).
    pub fn fanout(&self, mover: usize, m: &Movement) -> (out: Vec<Delivery>)
        requires
            self.wf(),
            mover < self.spec_players().len(),
        ensures
            out@ == spec_fanout(
                self.spec_players(),
                mover as int,
                *m,
                self.spec_players().len() as int,
            ),
    {
        let mut out: Vec<Delivery> = Vec::new();
        let mut i: usize = 0;
        while i < self.players.len()
            invariant
                i <= self.players@.len(),
                self.wf(),
                mover < self.players@.len(),
                out@ == spec_fanout(self.players@, mover as int, *m, i as int),
            decreases self.players@.len() - i,
        {
            let o = &self.players[i];
            let ghost before = out@;
            if i != mover && (o.in_view(m.old_chunk) || o.in_view(m.new_chunk)) {
                let packets = movement_packets(
                    self.players[mover].eid,
                    o.ver,
                    &self.players[mover].pos,
                    m.pos_changed,
                    m.look_changed,
                );
                let mut addressed = address(o.conn, packets);
                out.append(&mut addressed);
            } else {
                assert(before + Seq::<Delivery>::empty() =~= before);
            }
            i += 1;
        }
        out
    }

    /// The chunk packets for the chunks of `rect`, in the order of
    /// [`ChunkRect::spec_positions`]. Chunks that are not stored yet are
    /// generated; no block changes.
    pub fn stream_rect(&mut self, rect: ChunkRect, ver: BlockVersion, conv: &TypeConverter) -> (out:
        Vec<CbPacket>)
        requires
            old(self).wf(),
            conv.wf(),
            rect.spec_count() <= 0x1000_0000,
        ensures
            final(self).wf(),
            grew_from(*final(self), *old(self)),
            are_chunk_packets(out@, rect.spec_positions(), *final(self), ver, *conv),
    {
        let ghost start = *self;
        let cells = rect.positions();
        let mut out: Vec<CbPacket> = Vec::new();
        let mut k: usize = 0;
        proof {
            assert(cells@.take(0) =~= Seq::<ChunkPos>::empty());
        }
        while k < cells.len()
            invariant
                k <= cells@.len(),
                self.wf(),
                conv.wf(),
                cells@ == rect.spec_positions(),
                grew_from(*self, start),
                are_chunk_packets(out@, cells@.take(k as int), *self, ver, *conv),
            decreases cells@.len() - k,
        {
            let c = cells[k];
            let ghost mid = *self;
            let ghost out0 = out@;
            self.load(c);
            let stored = self.get_chunk(c).unwrap();
            let packet = serialize_chunk(c, stored, ver, conv);
            proof {
                lemma_packets_step(out0, cells@, k as int, mid, *self, packet, ver, *conv);
                assert forall|p: Pos| p.in_height() implies #[trigger] self.block_at(p)
                    == start.block_at(p) by {
                    assert(mid.block_at(p) == start.block_at(p));
                }
            }
            out.push(packet);
            k += 1;
        }
        proof {
            assert(cells@.take(cells@.len() as int) =~= cells@);
        }
        out
    }

    /// One tick of the player at `index`: its position is committed, the
    /// players that see it are told how it moved, and where it has changed
    /// chunks it gets the chunks that came into view, first those of the
    /// side strip and then those of the cap strip, and is told to forget
    /// those that went out of view, in the same order.
    pub fn tick_player(&mut self, index: usize, conv: &TypeConverter) -> (out: (Movement, TickOutput))
        requires
            old(self).wf(),
            conv.wf(),
            index < old(self).spec_players().len(),
        ensures
            final(self).wf(),
            final(self).spec_gen() == old(self).spec_gen(),
            final(self).spec_next_eid() == old(self).spec_next_eid(),
            final(self).spec_mspt() == old(self).spec_mspt(),
            final(self).spec_ticks() == old(self).spec_ticks(),
            forall|p: Pos| p.in_height() ==> #[trigger] final(self).block_at(p) == old(self).block_at(p),
            final(self).spec_players().len() == old(self).spec_players().len(),
            forall|j: int|
                0 <= j < old(self).spec_players().len() && j != index ==> #[trigger] final(self).spec_players()[j] == old(self).spec_players()[j],
            Player::ticked(
                old(self).spec_players()[index as int],
                final(self).spec_players()[index as int],
                out.0,
            ),
            out.1.movement@ == spec_fanout(
                final(self).spec_players(),
                index as int,
                out.0,
                final(self).spec_players().len() as int,
            ),
            ({
                let m = out.0;
                let ver = old(self).spec_players()[index as int].ver;
                let d_load = crate::session::spec_side_strip(
                    m.old_chunk,
                    m.new_chunk,
                    VIEW_DISTANCE as int,
                );
                let d_cap = crate::session::spec_cap_strip(
                    m.old_chunk,
                    m.new_chunk,
                    VIEW_DISTANCE as int,
                );
                let u_load = crate::session::spec_side_strip(
                    m.new_chunk,
                    m.old_chunk,
                    VIEW_DISTANCE as int,
                );
                let u_cap = crate::session::spec_cap_strip(
                    m.new_chunk,
                    m.old_chunk,
                    VIEW_DISTANCE as int,
                );
                if m.old_chunk == m.new_chunk {
                    out.1.loaded@.len() == 0 && out.1.unloaded@.len() == 0
                } else {
                    &&& are_chunk_packets(
                        out.1.loaded@,
                        d_load.spec_positions() + d_cap.spec_positions(),
                        *final(self),
                        ver.spec_block(),
                        *conv,
                    )
                    &&& are_unload_packets(
                        out.1.unloaded@,
                        u_load.spec_positions() + u_cap.spec_positions(),
                        ver,
                    )
                }
            }),
    {
        let ghost before = *self;
        let mut p = self.players.remove(index);
        let m = p.tick();
        let ver = p.ver;
        let ghost after_tick = p;
        self.players.insert(index, p);
        proof {
            assert(self.players@ =~= before.players@.update(index as int, after_tick));
            lemma_players_update(before.players@, index as int, after_tick);
            lemma_wf_players(before, *self);
        }
        let movement = self.fanout(index, &m);
        let mut loaded: Vec<CbPacket> = Vec::new();
        let mut unloaded: Vec<CbPacket> = Vec::new();
        if m.old_chunk.x != m.new_chunk.x || m.old_chunk.z != m.new_chunk.z {
            let d = view_delta(m.old_chunk, m.new_chunk, VIEW_DISTANCE);
            proof {
                lemma_strip_counts(m.old_chunk, m.new_chunk);
                lemma_strip_counts(m.new_chunk, m.old_chunk);
            }
            let ghost ticked_world = *self;
            loaded = self.stream_rect(d.load_side, ver.block(), conv);
            let ghost mid = *self;
            let ghost first = loaded@;
            let mut more = self.stream_rect(d.load_cap, ver.block(), conv);
            let ghost second = more@;
            loaded.append(&mut more);
            unloaded = unload_rect(d.unload_side, ver);
            let ghost first_un = unloaded@;
            let mut more_un = unload_rect(d.unload_cap, ver);
            let ghost second_un = more_un@;
            unloaded.append(&mut more_un);
            proof {
                lemma_packets_kept(
                    first,
                    d.load_side.spec_positions(),
                    mid,
                    *self,
                    ver.spec_block(),
                    *conv,
                );
                lemma_packets_join(
                    first,
                    d.load_side.spec_positions(),
                    second,
                    d.load_cap.spec_positions(),
                    *self,
                    ver.spec_block(),
                    *conv,
                );
                lemma_unload_join(
                    first_un,
                    d.unload_side.spec_positions(),
                    second_un,
                    d.unload_cap.spec_positions(),
                    ver,
                );
                assert forall|p: Pos| p.in_height() implies #[trigger] self.block_at(p)
                    == before.block_at(p) by {
                    assert(mid.block_at(p) == ticked_world.block_at(p));
                    assert(ticked_world.block_at(p) == before.block_at(p));
                }
            }
        }
        (m, TickOutput { movement, loaded, unloaded })
    }

    /// What a player that has just joined is sent, in order: the login with
    /// its entity id, in creative mode; the chunks of the square of 20 by
    /// 20 chunks around it; and the teleport to where it stands.
    pub fn join(&mut self, index: usize, conv: &TypeConverter) -> (out: Vec<CbPacket>)
        requires
            old(self).wf(),
            conv.wf(),
            index < old(self).spec_players().len(),
        ensures
            final(self).wf(),
            grew_from(*final(self), *old(self)),
            ({
                let p = old(self).spec_players()[index as int];
                let cells = crate::session::spec_join_rect(
                    p.spec_chunk(),
                    VIEW_DISTANCE as int,
                ).spec_positions();
                &&& cells.len() == 400
                &&& out@.len() == 402
                &&& is_login(out@[0], p.eid)
                &&& are_chunk_packets(
                    out@.subrange(1, 401),
                    cells,
                    *final(self),
                    p.ver.spec_block(),
                    *conv,
                )
                &&& out@[401] == (CbPacket::Position {
                    x: p.pos.curr.x,
                    y: p.pos.curr.y,
                    z: p.pos.curr.z,
                    yaw: p.pos.yaw,
                    pitch: p.pos.pitch,
                    flags: 0,
                    teleport_id_v1_9: Some(JOIN_TELEPORT_ID),
                })
            }),
    {
        let eid = self.players[index].eid;
        let ver = self.players[index].ver;
        let pos = self.players[index].pos;
        let center = pos.curr.chunk();
        let mut out: Vec<CbPacket> = Vec::new();
        out.push(
            CbPacket::Login {
                entity_id: eid,
                game_mode: 1,
                difficulty: 1,
                dimension: 0,
                level_type: String::from_str("default"),
                max_players: 0,
                reduced_debug_info: false,
            },
        );
        let rect = join_rect(center, VIEW_DISTANCE);
        let mut chunks = self.stream_rect(rect, ver.block(), conv);
        let ghost streamed = chunks@;
        out.append(&mut chunks);
        out.push(
            CbPacket::Position {
                x: pos.curr.x,
                y: pos.curr.y,
                z: pos.curr.z,
                yaw: pos.yaw,
                pitch: pos.pitch,
                flags: 0,
                teleport_id_v1_9: Some(JOIN_TELEPORT_ID),
            },
        );
        assert(out@.subrange(1, 401) =~= streamed);
        out
    }

    /// Counts `ms` milliseconds towards the tick time that is reported
    /// next. The count stops at the largest number it can hold.
    pub fn add_tick_time(&mut self, ms: u32)
        ensures
            final(self).spec_mspt() == if old(self).spec_mspt() + ms > u32::MAX {
                u32::MAX
            } else {
                (old(self).spec_mspt() + ms) as u32
            },
            final(self).spec_chunks() == old(self).spec_chunks(),
            final(self).spec_gen() == old(self).spec_gen(),
            final(self).spec_next_eid() == old(self).spec_next_eid(),
            final(self).spec_players() == old(self).spec_players(),
            final(self).spec_ticks() == old(self).spec_ticks(),
    {
        self.mspt = if ms > u32::MAX - self.mspt {
            u32::MAX
        } else {
            self.mspt + ms
        };
    }

    /// One global tick. Every twentieth tick, starting with the first, each
    /// player gets the report of the mean time of the ticks since the last
    /// report, and the count of that time starts again from 0.
    pub fn global_tick(&mut self, title: &str) -> (out: Vec<Delivery>)
        ensures
            final(self).spec_chunks() == old(self).spec_chunks(),
            final(self).spec_gen() == old(self).spec_gen(),
            final(self).spec_next_eid() == old(self).spec_next_eid(),
            final(self).spec_players() == old(self).spec_players(),
            final(self).spec_ticks() == if old(self).spec_ticks() == u64::MAX {
                0
            } else {
                (old(self).spec_ticks() + 1) as u64
            },
            old(self).spec_ticks() % TICKS_PER_SECOND != 0 ==> out@.len() == 0 && final(self).spec_mspt() == old(self).spec_mspt(),
            old(self).spec_ticks() % TICKS_PER_SECOND == 0 ==> final(self).spec_mspt() == 0
                && out@.len() == old(self).spec_players().len() && forall|i: int|
                0 <= i < out@.len() ==> (#[trigger] out@[i]).conn == old(self).spec_players()[i].conn
                    && is_mspt_report(out@[i].packet, title@, old(self).spec_mspt() / 20),
    {
        let mut out: Vec<Delivery> = Vec::new();
        if self.ticks % TICKS_PER_SECOND == 0 {
            let mean = self.mspt / 20;
            self.mspt = 0;
            let mut i: usize = 0;
            while i < self.players.len()
                invariant
                    i <= self.players@.len(),
                    out@.len() == i,
                    forall|j: int|
                        0 <= j < i ==> (#[trigger] out@[j]).conn == self.players@[j].conn
                            && is_mspt_report(out@[j].packet, title@, mean),
                decreases self.players@.len() - i,
            {
                out.push(Delivery { conn: self.players[i].conn, packet: mspt_report(title, mean) });
                i += 1;
            }
        }
        self.ticks = if self.ticks == u64::MAX {
            0
        } else {
            self.ticks + 1
        };
        out
    }

    /// Records where the player at `index` says it is (see
    /// [`crate::session::PlayerPosition::set_next_pos`]).
    pub fn set_next_pos(&mut self, index: usize, x: i64, y: i64, z: i64) -> (ok: bool)
        requires
            old(self).wf(),
            index < old(self).spec_players().len(),
        ensures
            final(self).wf(),
            final(self).spec_chunks() == old(self).spec_chunks(),
            final(self).same_but_players(*old(self)),
            ok == (crate::math::FPos { x, y, z }).wf(),
            final(self).spec_players().len() == old(self).spec_players().len(),
            forall|j: int|
                0 <= j < old(self).spec_players().len() && j != index ==> #[trigger] final(self).spec_players()[j] == old(self).spec_players()[j],
            ({
                let a = final(self).spec_players()[index as int];
                let b = old(self).spec_players()[index as int];
                a.uuid == b.uuid && a.eid == b.eid && a.conn == b.conn && a.ver == b.ver && a.inv
                    == b.inv && a.username == b.username && a.pos == if ok {
                    crate::session::PlayerPosition { next: crate::math::FPos { x, y, z }, ..b.pos }
                } else {
                    b.pos
                }
            }),
    {
        let ghost before = *self;
        let mut p = self.players.remove(index);
        let ok = p.pos.set_next_pos(x, y, z).is_ok();
        let ghost changed = p;
        self.players.insert(index, p);
        proof {
            assert(self.players@ =~= before.players@.update(index as int, changed));
            lemma_players_update(before.players@, index as int, changed);
            lemma_wf_players(before, *self);
        }
        ok
    }

    /// Records where the player at `index` says it looks.
    pub fn set_next_look(&mut self, index: usize, yaw: i64, pitch: i64)
        requires
            old(self).wf(),
            index < old(self).spec_players().len(),
        ensures
            final(self).wf(),
            final(self).spec_chunks() == old(self).spec_chunks(),
            final(self).same_but_players(*old(self)),
            final(self).spec_players().len() == old(self).spec_players().len(),
            forall|j: int|
                0 <= j < old(self).spec_players().len() && j != index ==> #[trigger] final(self).spec_players()[j] == old(self).spec_players()[j],
            ({
                let a = final(self).spec_players()[index as int];
                let b = old(self).spec_players()[index as int];
                a.uuid == b.uuid && a.eid == b.eid && a.conn == b.conn && a.ver == b.ver && a.inv
                    == b.inv && a.username == b.username && a.pos
                    == (crate::session::PlayerPosition { next_yaw: yaw, next_pitch: pitch, ..b.pos })
            }),
    {
        let ghost before = *self;
        let mut p = self.players.remove(index);
        p.pos.set_next_look(yaw, pitch);
        let ghost changed = p;
        self.players.insert(index, p);
        proof {
            assert(self.players@ =~= before.players@.update(index as int, changed));
            lemma_players_update(before.players@, index as int, changed);
            lemma_wf_players(before, *self);
        }
    }
}

/// The four strips of a move of a view of radius 10 hold at most 21 by 21
/// chunks each.
pub proof fn lemma_strip_counts(from: ChunkPos, to: ChunkPos)
    requires
        from.in_world(),
        to.in_world(),
    ensures
        crate::session::spec_side_strip(from, to, 10).spec_count() <= 0x1000_0000,
        crate::session::spec_cap_strip(from, to, 10).spec_count() <= 0x1000_0000,
{
    let a = crate::session::spec_side_strip(from, to, 10);
    let b = crate::session::spec_cap_strip(from, to, 10);
    assert(a.spec_width() <= 21 && a.spec_height() <= 21);
    assert(b.spec_width() <= 21 && b.spec_height() <= 21);
    assert(a.spec_count() <= 441) by (nonlinear_arith)
        requires
            a.spec_count() == a.spec_width() * a.spec_height(),
            0 <= a.spec_width() <= 21,
            0 <= a.spec_height() <= 21,
    ;
    assert(b.spec_count() <= 441) by (nonlinear_arith)
        requires
            b.spec_count() == b.spec_width() * b.spec_height(),
            0 <= b.spec_width() <= 21,
            0 <= b.spec_height() <= 21,
    ;
}

} // verus!
