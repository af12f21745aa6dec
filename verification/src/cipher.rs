//! The stream cipher of an encrypted connection: AES-128 in 8-bit cipher
//! feedback mode. The block cipher is `aes`, the mode is `cfb8`; what this
//! module keeps is the state between two calls, the key and the sixteen
//! bytes that the next byte's key stream is made from.

use vstd::prelude::*;
use aes::Aes128;
use cfb8::cipher::{AsyncStreamCipher, NewCipher};
use cfb8::Cfb8;

verus! {

/// Bytes in a key and in the feedback register.
pub const KEY_LEN: usize = 16;

/// The cipher text that `cfb8` makes of `data` under `key`, starting from the
/// register `iv`.
pub uninterp spec fn cfb8_encrypted(key: Seq<u8>, iv: Seq<u8>, data: Seq<u8>) -> Seq<u8>;

/// The plain text that `cfb8` makes of `data` under `key`, starting from the
/// register `iv`.
pub uninterp spec fn cfb8_decrypted(key: Seq<u8>, iv: Seq<u8>, data: Seq<u8>) -> Seq<u8>;

/// Makes a `Cfb8<Aes128>` from `key` and `iv` and calls its `encrypt` on
/// `data`. The contract names the cipher text, and states what the mode
/// promises: the cipher text is as long as the plain text, and decrypting it
/// from the same key and register gives the plain text back.
#[verifier::external_body]
fn cfb8_encrypt(key: &Vec<u8>, iv: &Vec<u8>, data: &mut Vec<u8>)
    requires
        key@.len() == KEY_LEN,
        iv@.len() == KEY_LEN,
    ensures
        final(data)@ == cfb8_encrypted(key@, iv@, old(data)@),
        final(data)@.len() == old(data)@.len(),
        cfb8_decrypted(key@, iv@, final(data)@) == old(data)@,
{
    Cfb8::<Aes128>::new_from_slices(key, iv).unwrap().encrypt(data);
}

/// Makes a `Cfb8<Aes128>` from `key` and `iv` and calls its `decrypt` on
/// `data`. The contract names the plain text and says that it is as long as
/// the cipher text.
#[verifier::external_body]
fn cfb8_decrypt(key: &Vec<u8>, iv: &Vec<u8>, data: &mut Vec<u8>)
    requires
        key@.len() == KEY_LEN,
        iv@.len() == KEY_LEN,
    ensures
        final(data)@ == cfb8_decrypted(key@, iv@, old(data)@),
        final(data)@.len() == old(data)@.len(),
{
    Cfb8::<Aes128>::new_from_slices(key, iv).unwrap().decrypt(data);
}

/// The register after `cipher_text` has passed: the last sixteen bytes of
/// the old register followed by the cipher text.
pub open spec fn spec_next_register(register: Seq<u8>, cipher_text: Seq<u8>) -> Seq<u8> {
    (register + cipher_text).subrange(cipher_text.len() as int, cipher_text.len() + KEY_LEN)
}

/// Exec form of [`spec_next_register`].
pub fn next_register(register: &Vec<u8>, cipher_text: &Vec<u8>) -> (out: Vec<u8>)
    requires
        register@.len() == KEY_LEN,
    ensures
        out@ == spec_next_register(register@, cipher_text@),
        out@.len() == KEY_LEN,
{
    let mut out: Vec<u8> = Vec::new();
    let n = cipher_text.len();
    let mut i: usize = 0;
    while i < KEY_LEN
        invariant
            i <= KEY_LEN,
            n == cipher_text@.len(),
            register@.len() == KEY_LEN,
            out@.len() == i,
            forall|j: int| 0 <= j < i ==> out@[j] == (register@ + cipher_text@)[n + j],
        decreases KEY_LEN - i,
    {
        // Position n + i of the register followed by the cipher text.
        let b = if n >= KEY_LEN - i {
            cipher_text[n - (KEY_LEN - i)]
        } else {
            register[n + i]
        };
        out.push(b);
        i += 1;
    }
    assert(out@ =~= spec_next_register(register@, cipher_text@));
    out
}

/// The state of one direction of an encrypted connection.
#[derive(Debug)]
pub struct Cipher {
    key: Vec<u8>,
    register: Vec<u8>,
}

impl Cipher {
    pub closed spec fn spec_key(self) -> Seq<u8> {
        self.key@
    }

    pub closed spec fn spec_register(self) -> Seq<u8> {
        self.register@
    }

    pub closed spec fn wf(self) -> bool {
        self.key@.len() == KEY_LEN && self.register@.len() == KEY_LEN
    }

    /// The cipher at the start of a connection: the shared secret is the
    /// key and the first register.
    pub fn new(secret: &[u8; 16]) -> (c: Cipher)
        ensures
            c.wf(),
            c.spec_key() == secret@,
            c.spec_register() == secret@,
    {
        let mut key: Vec<u8> = Vec::new();
        let mut register: Vec<u8> = Vec::new();
        let mut i: usize = 0;
        while i < 16
            invariant
                i <= 16,
                key@.len() == i,
                register@.len() == i,
                forall|j: int| 0 <= j < i ==> key@[j] == secret@[j] && register@[j] == secret@[j],
            decreases 16 - i,
        {
            key.push(secret[i]);
            register.push(secret[i]);
            i += 1;
        }
        assert(key@ =~= secret@);
        assert(register@ =~= secret@);
        Cipher { key, register }
    }

    /// Whether the two ciphers are in the same state.
    pub open spec fn same_state(self, other: Cipher) -> bool {
        self.spec_key() == other.spec_key() && self.spec_register() == other.spec_register()
    }

    /// What [`Cipher::encrypt`] does: from the state `self` it makes `sent`
    /// of `plain` and comes into the state `after`.
    pub open spec fn encrypts(self, plain: Seq<u8>, sent: Seq<u8>, after: Cipher) -> bool {
        &&& sent == cfb8_encrypted(self.spec_key(), self.spec_register(), plain)
        &&& sent.len() == plain.len()
        &&& cfb8_decrypted(self.spec_key(), self.spec_register(), sent) == plain
        &&& after.spec_key() == self.spec_key()
        &&& after.spec_register() == spec_next_register(self.spec_register(), sent)
    }

    /// What [`Cipher::decrypt`] does: from the state `self` it makes `plain`
    /// of `sent` and comes into the state `after`.
    pub open spec fn decrypts(self, sent: Seq<u8>, plain: Seq<u8>, after: Cipher) -> bool {
        &&& plain == cfb8_decrypted(self.spec_key(), self.spec_register(), sent)
        &&& plain.len() == sent.len()
        &&& after.spec_key() == self.spec_key()
        &&& after.spec_register() == spec_next_register(self.spec_register(), sent)
    }

    /// Encrypts `data` in place and moves the register on by the cipher
    /// text. Decrypting the result from the state before gives `data` back.
    pub fn encrypt(&mut self, data: &mut Vec<u8>)
        requires
            old(self).wf(),
        ensures
            final(self).wf(),
            old(self).encrypts(old(data)@, final(data)@, *final(self)),
            final(self).spec_key() == old(self).spec_key(),
            final(data)@ == cfb8_encrypted(
                old(self).spec_key(),
                old(self).spec_register(),
                old(data)@,
            ),
            final(data)@.len() == old(data)@.len(),
            cfb8_decrypted(old(self).spec_key(), old(self).spec_register(), final(data)@) == old(data)@,
            final(self).spec_register() == spec_next_register(
                old(self).spec_register(),
                final(data)@,
            ),
    {
        cfb8_encrypt(&self.key, &self.register, data);
        self.register = next_register(&self.register, data);
    }

    /// Decrypts `data` in place and moves the register on by the cipher
    /// text.
    pub fn decrypt(&mut self, data: &mut Vec<u8>)
        requires
            old(self).wf(),
        ensures
            final(self).wf(),
            old(self).decrypts(old(data)@, final(data)@, *final(self)),
            final(self).spec_key() == old(self).spec_key(),
            final(data)@ == cfb8_decrypted(
                old(self).spec_key(),
                old(self).spec_register(),
                old(data)@,
            ),
            final(data)@.len() == old(data)@.len(),
            final(self).spec_register() == spec_next_register(
                old(self).spec_register(),
                old(data)@,
            ),
    {
        let next = next_register(&self.register, data);
        cfb8_decrypt(&self.key, &self.register, data);
        self.register = next;
    }
}

} // verus!
