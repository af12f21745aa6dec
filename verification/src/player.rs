//! A player: who it is, which connection and version it uses, what it
//! carries and where it stands.

use vstd::prelude::*;
use crate::chat::Chat;
use crate::math::{ChunkPos, FPos};
use crate::packet::{CbPacket, UUID};
use crate::session::{spec_in_view, Movement, PlayerPosition, VIEW_DISTANCE};
use crate::version::ProtocolVersion;

verus! {

/// Slots in a player's inventory.
pub const INVENTORY_SLOTS: u32 = 46;

/// The slot of the first hotbar item.
pub const HOTBAR_START: u32 = 36;

/// The last hotbar index.
pub const MAX_SELECTED: u8 = 8;

/// A number of items of one kind. No items at all is item 0, amount 0.
#[derive(Clone, Copy, Debug, PartialEq, Eq, Structural)]
pub struct Stack {
    pub item: i32,
    pub amount: u8,
}

impl Stack {
    pub fn empty() -> (s: Stack)
        ensures
            s == (Stack { item: 0, amount: 0 }),
    {
        Stack { item: 0, amount: 0 }
    }

    pub fn new(item: i32, amount: u8) -> (s: Stack)
        ensures
            s == (Stack { item, amount }),
    {
        Stack { item, amount }
    }
}

/// A packet and the connection it goes to.
#[derive(Clone, Debug, PartialEq, Eq)]
pub struct Delivery {
    pub conn: u64,
    pub packet: CbPacket,
}

/// A row of slots.
#[derive(Debug)]
pub struct Inventory {
    items: Vec<Stack>,
}

impl Inventory {
    /// What each slot holds.
    pub closed spec fn view(self) -> Seq<Stack> {
        self.items@
    }

    /// `size` empty slots.
    pub fn new(size: u32) -> (inv: Inventory)
        ensures
            inv@ == Seq::new(size as nat, |i: int| Stack { item: 0, amount: 0 }),
    {
        let mut items: Vec<Stack> = Vec::new();
        let mut i: u32 = 0;
        while i < size
            invariant
                i <= size,
                items@ == Seq::new(i as nat, |j: int| Stack { item: 0, amount: 0 }),
            decreases size - i,
        {
            items.push(Stack::empty());
            assert(items@ =~= Seq::new((i + 1) as nat, |j: int| Stack { item: 0, amount: 0 }));
            i += 1;
        }
        Inventory { items }
    }

    pub fn get(&self, index: u32) -> (s: &Stack)
        requires
            index < self@.len(),
        ensures
            *s == self@[index as int],
    {
        &self.items[index as usize]
    }

    pub fn set(&mut self, index: u32, stack: Stack)
        requires
            index < old(self)@.len(),
        ensures
            final(self)@ == old(self)@.update(index as int, stack),
    {
        self.items.set(index as usize, stack);
    }
}

/// What a player carries, and which hotbar slot is in its hand.
#[derive(Debug)]
pub struct PlayerInventory {
    inv: Inventory,
    /// An index into the hotbar, 0 to 8.
    selected_index: u8,
}

impl PlayerInventory {
    /// What each of the 46 slots holds.
    pub closed spec fn view(self) -> Seq<Stack> {
        self.inv@
    }

    pub closed spec fn spec_selected(self) -> u8 {
        self.selected_index
    }

    pub open spec fn wf(self) -> bool {
        self@.len() == INVENTORY_SLOTS && self.spec_selected() <= MAX_SELECTED
    }

    /// 46 empty slots, the first hotbar slot selected.
    pub fn new() -> (inv: PlayerInventory)
        ensures
            inv.wf(),
            inv.spec_selected() == 0,
            inv@ == Seq::new(INVENTORY_SLOTS as nat, |i: int| Stack { item: 0, amount: 0 }),
    {
        PlayerInventory { inv: Inventory::new(INVENTORY_SLOTS), selected_index: 0 }
    }

    /// The item in the main hand: slot 36 plus the selected index.
    pub fn main_hand(&self) -> (s: &Stack)
        requires
            self.wf(),
        ensures
            *s == self@[HOTBAR_START + self.spec_selected()],
    {
        self.inv.get(self.selected_index as u32 + HOTBAR_START)
    }

    /// The selected hotbar index.
    pub fn selected_index(&self) -> (i: u8)
        ensures
            i == self.spec_selected(),
    {
        self.selected_index
    }

    /// Selects the hotbar slot `index`. An index above 8 is refused and
    /// changes nothing.
    pub fn set_selected(&mut self, index: u8) -> (ok: bool)
        ensures
            ok == (index <= MAX_SELECTED),
            final(self)@ == old(self)@,
            final(self).spec_selected() == if ok {
                index
            } else {
                old(self).spec_selected()
            },
    {
        if index <= MAX_SELECTED {
            self.selected_index = index;
            true
        } else {
            false
        }
    }

    /// The item in slot `index`. Slot 0 is not the start of the hotbar; the
    /// hotbar starts at 36.
    pub fn get(&self, index: u32) -> (s: &Stack)
        requires
            self.wf(),
            index < INVENTORY_SLOTS,
        ensures
            *s == self@[index as int],
    {
        self.inv.get(index)
    }

    /// Puts `stack` into slot `index` and returns the packet that tells the
    /// owner so.
    pub fn set(&mut self, index: u32, stack: Stack) -> (p: CbPacket)
        requires
            old(self).wf(),
            index < INVENTORY_SLOTS,
        ensures
            final(self).wf(),
            final(self)@ == old(self)@.update(index as int, stack),
            final(self).spec_selected() == old(self).spec_selected(),
            p == (CbPacket::SetSlot {
                window_id: 0,
                slot: index as i16,
                item: stack.item,
                amount: stack.amount,
            }),
    {
        self.inv.set(index, stack);
        CbPacket::SetSlot { window_id: 0, slot: index as i16, item: stack.item, amount: stack.amount }
    }
}

/// A player.
#[derive(Debug)]
pub struct Player {
    /// The entity id. Never changes.
    pub eid: i32,
    pub username: String,
    pub uuid: UUID,
    /// The connection that the player's packets go to.
    pub conn: u64,
    pub ver: ProtocolVersion,
    pub inv: PlayerInventory,
    pub pos: PlayerPosition,
}

impl Player {
    pub open spec fn wf(self) -> bool {
        self.inv.wf() && self.pos.wf()
    }

    /// A player with an empty inventory, standing still at `pos`.
    pub fn new(
        eid: i32,
        username: String,
        uuid: UUID,
        conn: u64,
        ver: ProtocolVersion,
        pos: FPos,
    ) -> (p: Player)
        requires
            pos.wf(),
        ensures
            p.wf(),
            p.eid == eid,
            p.username == username,
            p.uuid == uuid,
            p.conn == conn,
            p.ver == ver,
            p.pos == PlayerPosition::spec_new(pos),
            p.inv.spec_selected() == 0,
            p.inv@ == Seq::new(INVENTORY_SLOTS as nat, |i: int| Stack { item: 0, amount: 0 }),
    {
        Player { eid, username, uuid, conn, ver, inv: PlayerInventory::new(), pos: PlayerPosition::new(pos) }
    }

    pub fn username(&self) -> (s: &str)
        ensures
            s@ == self.username@,
    {
        self.username.as_str()
    }

    pub fn conn(&self) -> (c: u64)
        ensures
            c == self.conn,
    {
        self.conn
    }

    pub fn eid(&self) -> (e: i32)
        ensures
            e == self.eid,
    {
        self.eid
    }

    pub fn id(&self) -> (u: UUID)
        ensures
            u == self.uuid,
    {
        self.uuid
    }

    pub fn ver(&self) -> (v: ProtocolVersion)
        ensures
            v == self.ver,
    {
        self.ver
    }

    /// The chat message `msg`, for the chat box.
    pub fn send_message(&self, msg: &Chat) -> (d: Delivery)
        ensures
            d.conn == self.conn,
            d.packet matches CbPacket::Chat { message, position, sender_v1_16 } && message@
                == crate::chat::spec_chat_json(msg@) && position == 0 && sender_v1_16
                == Some(self.uuid),
    {
        Delivery {
            conn: self.conn,
            packet: CbPacket::Chat {
                message: msg.to_json(),
                position: 0,
                sender_v1_16: Some(self.uuid),
            },
        }
    }

    /// The chat message `msg`, to be shown above the hotbar.
    pub fn send_hotbar(&self, msg: &Chat) -> (d: Delivery)
        ensures
            d.conn == self.conn,
            d.packet matches CbPacket::Chat { message, position, sender_v1_16 } && message@
                == crate::chat::spec_chat_json(msg@) && position == 2 && sender_v1_16
                == Some(self.uuid),
    {
        Delivery {
            conn: self.conn,
            packet: CbPacket::Chat {
                message: msg.to_json(),
                position: 2,
                sender_v1_16: Some(self.uuid),
            },
        }
    }

    /// The packet that disconnects the player and shows it `msg`.
    pub fn disconnect(&self, msg: &Chat) -> (d: Delivery)
        ensures
            d.conn == self.conn,
            d.packet matches CbPacket::KickDisconnect { reason } && reason@
                == crate::chat::spec_chat_json(msg@),
    {
        Delivery { conn: self.conn, packet: CbPacket::KickDisconnect { reason: msg.to_json() } }
    }

    /// Whether `after` is `before` one tick later, and `m` what the tick
    /// changed: nothing but the position changes; there the current
    /// position becomes the previous one and the position that arrived last
    /// the current one, yaw is brought into one turn and pitch clamped to a
    /// quarter turn.
    pub open spec fn ticked(before: Player, after: Player, m: Movement) -> bool {
        &&& after.eid == before.eid
        &&& after.username == before.username
        &&& after.uuid == before.uuid
        &&& after.conn == before.conn
        &&& after.ver == before.ver
        &&& after.inv == before.inv
        &&& after.pos.prev == before.pos.curr
        &&& after.pos.curr == before.pos.next
        &&& after.pos.next == before.pos.next
        &&& after.pos.yaw == crate::session::spec_normalize_yaw(before.pos.next_yaw as int)
        &&& after.pos.pitch == crate::session::spec_clamp_pitch(before.pos.next_pitch as int)
        &&& after.pos.next_yaw == before.pos.next_yaw
        &&& after.pos.next_pitch == before.pos.next_pitch
        &&& m.pos_changed == (before.pos.curr != before.pos.next)
        &&& m.look_changed == (after.pos.yaw != before.pos.yaw || after.pos.pitch
            != before.pos.pitch)
        &&& m.old_chunk == before.pos.curr.spec_block().spec_chunk()
        &&& m.new_chunk == before.pos.next.spec_block().spec_chunk()
        &&& m.old_chunk.in_world()
        &&& m.new_chunk.in_world()
    }

    /// A tick that follows a tick, with no packet between them, changes
    /// neither the position nor the look: nobody is told anything.
    pub proof fn idle_tick_is_silent(
        before: Player,
        between: Player,
        first: Movement,
        after: Player,
        second: Movement,
    )
        requires
            Player::ticked(before, between, first),
            Player::ticked(between, after, second),
        ensures
            !second.pos_changed,
            !second.look_changed,
            second.old_chunk == second.new_chunk,
    {
    }

    /// Commits one tick of the player's position (see [`Player::ticked`]).
    pub fn tick(&mut self) -> (m: Movement)
        requires
            old(self).wf(),
        ensures
            final(self).wf(),
            Player::ticked(*old(self), *final(self), m),
    {
        self.pos.tick()
    }

    pub fn pos(&self) -> (r: FPos)
        ensures
            r == self.pos.curr,
    {
        self.pos.curr
    }

    /// The position, then pitch and yaw.
    pub fn pos_look(&self) -> (r: (FPos, i64, i64))
        ensures
            r == (self.pos.curr, self.pos.pitch, self.pos.yaw),
    {
        (self.pos.curr, self.pos.pitch, self.pos.yaw)
    }

    /// The current position, then the previous one.
    pub fn pos_with_prev(&self) -> (r: (FPos, FPos))
        ensures
            r == (self.pos.curr, self.pos.prev),
    {
        (self.pos.curr, self.pos.prev)
    }

    /// Pitch, then yaw.
    pub fn look(&self) -> (r: (i64, i64))
        ensures
            r == (self.pos.pitch, self.pos.yaw),
    {
        (self.pos.pitch, self.pos.yaw)
    }

    /// The chunk the player stands in.
    pub open spec fn spec_chunk(self) -> ChunkPos {
        self.pos.curr.spec_block().spec_chunk()
    }

    /// Whether `pos` is within view distance of the player's chunk.
    pub open spec fn sees(self, pos: ChunkPos) -> bool {
        spec_in_view(self.spec_chunk(), pos, VIEW_DISTANCE as int)
    }

    /// Exec form of [`Player::sees`].
    pub fn in_view(&self, pos: ChunkPos) -> (r: bool)
        requires
            self.wf(),
        ensures
            r == self.sees(pos),
    {
        self.pos.in_view(pos)
    }
}

} // verus!
