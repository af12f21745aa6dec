//! What plugins see of the server: a registry of callbacks, one for each
//! kind of event at most, and the levels at which they log.

use vstd::prelude::*;
use vstd::utf8::encode_utf8;
use crate::manager::{spec_get_player, WorldManager};
use crate::math::Pos;
use crate::packet::UUID;

verus! {

/// How important a log message is.
#[derive(Clone, Copy, Debug, PartialEq, Eq, Structural)]
pub enum Level {
    Error,
    Warn,
    Info,
    Debug,
    Trace,
}

impl Level {
    /// The number of the level: 1 for errors up to 5 for traces.
    pub open spec fn spec_number(self) -> int {
        match self {
            Level::Error => 1,
            Level::Warn => 2,
            Level::Info => 3,
            Level::Debug => 4,
            Level::Trace => 5,
        }
    }

    pub fn number(self) -> (n: u32)
        ensures
            n == self.spec_number(),
    {
        match self {
            Level::Error => 1,
            Level::Warn => 2,
            Level::Info => 3,
            Level::Debug => 4,
            Level::Trace => 5,
        }
    }
}

/// The level with the number `level`, if there is one.
pub fn log_from_level(level: u32) -> (r: Option<Level>)
    ensures
        r.is_some() == (1 <= level <= 5),
        r matches Some(l) ==> l.spec_number() == level,
{
    match level {
        1 => Some(Level::Error),
        2 => Some(Level::Warn),
        3 => Some(Level::Info),
        4 => Some(Level::Debug),
        5 => Some(Level::Trace),
        _ => None,
    }
}

/// Whether a plugin's message at `level` is logged: up to `Info` it is.
pub fn enabled(level: Level) -> (r: bool)
    ensures
        r == (level.spec_number() <= Level::Info.spec_number()),
{
    level.number() <= Level::Info.number()
}

/// The kinds of event that a plugin can ask to be called for.
#[derive(Clone, Copy, Debug, PartialEq, Eq, Structural)]
pub enum Event {
    BlockPlace,
}

/// The callbacks that are registered, each named by the number under which
/// the plugin host keeps it. There is one callback for each kind of event at
/// most: a new one takes the place of the one before.
#[derive(Clone, Copy, Debug, PartialEq, Eq, Structural)]
pub struct Bamboo {
    pub on_block_place: Option<u64>,
}

/// What a plugin starts with: no callbacks.
pub fn instance() -> (b: Bamboo)
    ensures
        b == (Bamboo { on_block_place: None }),
{
    Bamboo { on_block_place: None }
}

/// What a plugin's logging starts with: the least important level that is
/// logged.
pub fn init() -> (max: Level)
    ensures
        max == Level::Info,
{
    Level::Info
}

/// A call of a callback: which one, and with what.
#[derive(Clone, Copy, Debug, PartialEq, Eq, Structural)]
pub struct Call {
    pub handler: u64,
    pub player: UUID,
    pub pos: Pos,
}

impl Bamboo {
    /// Registers `handler` for block placements, in place of what was
    /// registered.
    pub fn set_on_block_place(&mut self, handler: u64)
        ensures
            *final(self) == (Bamboo { on_block_place: Some(handler) }),
    {
        self.on_block_place = Some(handler);
    }

    /// The call to make when `player` has placed a block at `pos`, if a
    /// callback is registered for that.
    pub fn on_block_place(&self, player: UUID, pos: Pos) -> (c: Option<Call>)
        ensures
            c == match self.on_block_place {
                Some(handler) => Some(Call { handler, player, pos }),
                None => None,
            },
    {
        match self.on_block_place {
            Some(handler) => Some(Call { handler, player, pos }),
            None => None,
        }
    }
}

/// Whether `len` bytes of a player's name can be copied into the buffer of
/// `buf_len` bytes that starts at `offset` in a memory of `mem_size` bytes:
/// the name must fit the buffer and the buffer's used part the memory.
pub open spec fn spec_username_fits(len: int, offset: int, buf_len: int, mem_size: int) -> bool {
    len <= buf_len && offset + len <= mem_size
}

/// Exec form of [`spec_username_fits`].
pub fn username_fits(len: usize, offset: u32, buf_len: u32, mem_size: usize) -> (ok: bool)
    ensures
        ok == spec_username_fits(len as int, offset as int, buf_len as int, mem_size as int),
{
    if len > buf_len as usize {
        return false;
    }
    let end: u64 = offset as u64 + len as u64;
    end <= mem_size as u64
}

/// The upper case form of a letter from `a` to `z`; any other character
/// as it is.
pub open spec fn spec_upper(c: char) -> char {
    if 'a' <= c <= 'z' {
        "ABCDEFGHIJKLMNOPQRSTUVWXYZ"@[c as u32 - 'a' as u32]
    } else {
        c
    }
}

/// The name of the module that a script defines: the stem of its file name
/// with the first letter in upper case, so that `plug.rb` defines `Plug`.
/// There is none for an empty stem, nor for one whose first character is
/// not ASCII.
pub open spec fn spec_module_name(stem: Seq<char>) -> Option<Seq<char>> {
    if stem.len() == 0 || stem[0] as u32 >= 128 {
        None
    } else {
        Some(seq![spec_upper(stem[0])] + stem.subrange(1, stem.len() as int))
    }
}

/// Exec form of [`spec_module_name`].
pub fn module_name(stem: &str) -> (r: Option<String>)
    ensures
        match spec_module_name(stem@) {
            Some(name) => r matches Some(s) && s@ == name,
            None => r.is_none(),
        },
{
    let n = stem.unicode_len();
    if n == 0 {
        return None;
    }
    let c = stem.get_char(0);
    if c as u32 >= 128 {
        return None;
    }
    let mut out = if 'a' as u32 <= c as u32 && c as u32 <= 'z' as u32 {
        let k = (c as u32 - 'a' as u32) as usize;
        proof {
            reveal_strlit("ABCDEFGHIJKLMNOPQRSTUVWXYZ");
        }
        let letters = "ABCDEFGHIJKLMNOPQRSTUVWXYZ";
        assert(letters.is_ascii());
        String::from_str(letters.substring_ascii(k, k + 1))
    } else {
        String::from_str(stem.substring_char(0, 1))
    };
    assert(out@ =~= seq![spec_upper(c)]);
    out.append(stem.substring_char(1, n));
    Some(out)
}

/// The memory `mem` with `bytes` written from `offset` on.
pub open spec fn spec_copied(mem: Seq<u8>, offset: int, bytes: Seq<u8>) -> Seq<u8> {
    mem.subrange(0, offset) + bytes + mem.subrange(offset + bytes.len(), mem.len() as int)
}

/// A plugin asks for the name of the player whose id is made of the words
/// `id`, least significant first. The name is written, as UTF-8, into the
/// plugin's memory `mem` from `offset` on, where the plugin keeps a buffer
/// of `buf_len` bytes. Returns 0 when that is done. Returns 1, and leaves
/// the memory as it is, where no such player is connected, where the name is
/// longer than the buffer, or where it would reach past the end of the
/// memory.
pub fn player_username(wm: &WorldManager, id: [u32; 4], mem: &mut Vec<u8>, offset: u32, buf_len: u32) -> (code: i32)
    ensures
        match spec_get_player(wm.spec_worlds(), UUID(UUID::spec_from_words(id)), 0) {
            Some(p) => if spec_username_fits(
                encode_utf8(p.username@).len() as int,
                offset as int,
                buf_len as int,
                old(mem)@.len() as int,
            ) {
                code == 0 && final(mem)@ == spec_copied(
                    old(mem)@,
                    offset as int,
                    encode_utf8(p.username@),
                )
            } else {
                code == 1 && final(mem)@ == old(mem)@
            },
            None => code == 1 && final(mem)@ == old(mem)@,
        },
{
    let player = match wm.get_player(UUID::from_words(id)) {
        Some(p) => p,
        None => {
            return 1;
        },
    };
    let bytes = player.username().as_bytes_vec();
    if !username_fits(bytes.len(), offset, buf_len, mem.len()) {
        return 1;
    }
    let start = offset as usize;
    let mut i: usize = 0;
    while i < bytes.len()
        invariant
            i <= bytes@.len(),
            start + bytes@.len() <= old(mem)@.len() <= usize::MAX,
            mem@.len() == old(mem)@.len(),
            forall|j: int| 0 <= j < start ==> mem@[j] == old(mem)@[j],
            forall|j: int| 0 <= j < i ==> mem@[start + j] == bytes@[j],
            forall|j: int| start + i <= j < mem@.len() ==> mem@[j] == old(mem)@[j],
        decreases bytes@.len() - i,
    {
        mem.set(start + i, bytes[i]);
        i += 1;
    }
    assert(mem@ =~= spec_copied(old(mem)@, offset as int, bytes@));
    0
}

} // verus!
