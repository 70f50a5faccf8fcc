//! Hashers that keep a record of what was written into them, so that a
//! contract can say what a hash was computed from even where the number
//! itself depends on the machine.
use vstd::prelude::*;
use crate::chat::Role;

verus! {

/// A piece written into a hasher, by its type's `Hash` impl.
pub enum HashPiece {
    /// A string, written as `str`
    Text(Seq<char>),
    /// A message role, written as `Role`
    Role(Role),
    /// A number, written as `u32`
    U32(u32),
    /// A number, written as `usize`
    Usize(usize),
    /// A JSON value, written as `serde_json::Value`
    Json(serde_json::Value),
}

/// Whether `digest` is what `DefaultHasher::finish` gives after each of
/// the pieces, in order, was written into a fresh `DefaultHasher::new()`
/// by its type's `Hash` impl. This is a relation, not a function of the
/// pieces: how a `usize`, a role or a JSON value is written depends on the
/// machine's word width, and the algorithm on the standard library's
/// version.
pub uninterp spec fn default_hasher_digest(digest: u64, pieces: Seq<HashPiece>) -> bool;

/// Whether `digest` is what `Xxh3::digest128` gives after each of the
/// pieces, in order, was written into a fresh `Xxh3::new()` by its type's
/// `Hash` impl. A relation, as above: how a `usize` is written depends on
/// the machine.
pub uninterp spec fn xxh3_hasher_digest(digest: u128, pieces: Seq<HashPiece>) -> bool;

/// A `DefaultHasher`, with the pieces written into it since it was made.
/// Its fields are private and each method that writes records what it
/// writes, so the record is always what the hasher was given.
pub struct PieceHasher {
    hasher: std::collections::hash_map::DefaultHasher,
    written: Ghost<Seq<HashPiece>>,
}

/// `<str as Hash>::hash` into a default hasher. How a string is written is
/// not documented, so nothing is stated of the hasher's state.
#[verifier::external_body]
fn default_hash_text(hasher: &mut std::collections::hash_map::DefaultHasher, text: &str) {
    std::hash::Hash::hash(text, hasher);
}

/// `<Role as Hash>::hash` (derived) into a default hasher; nothing is
/// stated of the hasher's state.
#[verifier::external_body]
fn default_hash_role(hasher: &mut std::collections::hash_map::DefaultHasher, role: Role) {
    std::hash::Hash::hash(&role, hasher);
}

/// `<u32 as Hash>::hash` into a default hasher; nothing is stated of the
/// hasher's state.
#[verifier::external_body]
fn default_hash_u32(hasher: &mut std::collections::hash_map::DefaultHasher, n: u32) {
    std::hash::Hash::hash(&n, hasher);
}

/// `<serde_json::Value as Hash>::hash` into a default hasher; nothing is
/// stated of the hasher's state.
#[verifier::external_body]
fn default_hash_json(hasher: &mut std::collections::hash_map::DefaultHasher, value: &serde_json::Value) {
    std::hash::Hash::hash(value, hasher);
}

/// `Hasher::finish` of the hasher inside a recording hasher: the digest of
/// the pieces it recorded (which are what it was given, see
/// `PieceHasher`).
#[verifier::external_body]
fn default_finish(h: &PieceHasher) -> (d: u64)
    ensures
        default_hasher_digest(d, h.written()),
{
    std::hash::Hasher::finish(&h.hasher)
}

impl PieceHasher {
    /// The pieces written so far, in order.
    pub closed spec fn written(&self) -> Seq<HashPiece> {
        self.written@
    }

    /// A fresh default hasher, with nothing written.
    pub fn new() -> (h: Self)
        ensures
            h.written() == Seq::<HashPiece>::empty(),
    {
        PieceHasher { hasher: std::collections::hash_map::DefaultHasher::new(), written: Ghost(Seq::empty()) }
    }

    /// Write a string.
    pub fn write_text(&mut self, text: &str)
        ensures
            final(self).written() == old(self).written().push(HashPiece::Text(text@)),
    {
        default_hash_text(&mut self.hasher, text);
        self.written = Ghost(self.written@.push(HashPiece::Text(text@)));
    }

    /// Write a role.
    pub fn write_role(&mut self, role: Role)
        ensures
            final(self).written() == old(self).written().push(HashPiece::Role(role)),
    {
        default_hash_role(&mut self.hasher, role);
        self.written = Ghost(self.written@.push(HashPiece::Role(role)));
    }

    /// Write a `u32`.
    pub fn write_u32(&mut self, n: u32)
        ensures
            final(self).written() == old(self).written().push(HashPiece::U32(n)),
    {
        default_hash_u32(&mut self.hasher, n);
        self.written = Ghost(self.written@.push(HashPiece::U32(n)));
    }

    /// Write a JSON value.
    pub fn write_json(&mut self, value: &serde_json::Value)
        ensures
            final(self).written() == old(self).written().push(HashPiece::Json(*value)),
    {
        default_hash_json(&mut self.hasher, value);
        self.written = Ghost(self.written@.push(HashPiece::Json(*value)));
    }

    /// The digest of what was written.
    pub fn finish(&self) -> (d: u64)
        ensures
            default_hasher_digest(d, self.written()),
    {
        default_finish(self)
    }
}

/// An `Xxh3` hasher, with the pieces written into it since it was made.
/// Its fields are private and each method that writes records what it
/// writes, so the record is always what the hasher was given.
pub struct Xxh3PieceHasher {
    hasher: xxhash_rust::xxh3::Xxh3,
    written: Ghost<Seq<HashPiece>>,
}

/// `xxhash_rust::xxh3::Xxh3`, the streaming 128-bit hasher.
#[verifier::external_type_specification]
#[verifier::external_body]
pub struct ExXxh3(xxhash_rust::xxh3::Xxh3);

/// `Xxh3::new`: a hasher with the default seed and nothing written. Its
/// state is opaque, so nothing is stated of it.
#[verifier::external_body]
fn xxh3_new() -> xxhash_rust::xxh3::Xxh3 {
    xxhash_rust::xxh3::Xxh3::new()
}

/// `<str as Hash>::hash` into an `Xxh3` hasher; nothing is stated of the
/// hasher's state.
#[verifier::external_body]
fn xxh3_hash_text(hasher: &mut xxhash_rust::xxh3::Xxh3, text: &str) {
    std::hash::Hash::hash(text, hasher);
}

/// `<usize as Hash>::hash` into an `Xxh3` hasher; nothing is stated of the
/// hasher's state.
#[verifier::external_body]
fn xxh3_hash_usize(hasher: &mut xxhash_rust::xxh3::Xxh3, n: usize) {
    std::hash::Hash::hash(&n, hasher);
}

/// `Xxh3::digest128` of the hasher inside a recording hasher: the digest
/// of the pieces it recorded (which are what it was given, see
/// `Xxh3PieceHasher`).
#[verifier::external_body]
fn xxh3_finish(h: &Xxh3PieceHasher) -> (d: u128)
    ensures
        xxh3_hasher_digest(d, h.written()),
{
    h.hasher.digest128()
}

impl Xxh3PieceHasher {
    /// The pieces written so far, in order.
    pub closed spec fn written(&self) -> Seq<HashPiece> {
        self.written@
    }

    /// A fresh hasher with the default seed, with nothing written.
    pub fn new() -> (h: Self)
        ensures
            h.written() == Seq::<HashPiece>::empty(),
    {
        Xxh3PieceHasher { hasher: xxh3_new(), written: Ghost(Seq::empty()) }
    }

    /// Write a string.
    pub fn write_text(&mut self, text: &str)
        ensures
            final(self).written() == old(self).written().push(HashPiece::Text(text@)),
    {
        xxh3_hash_text(&mut self.hasher, text);
        self.written = Ghost(self.written@.push(HashPiece::Text(text@)));
    }

    /// Write a `usize`.
    pub fn write_usize(&mut self, n: usize)
        ensures
            final(self).written() == old(self).written().push(HashPiece::Usize(n)),
    {
        xxh3_hash_usize(&mut self.hasher, n);
        self.written = Ghost(self.written@.push(HashPiece::Usize(n)));
    }

    /// The 128-bit digest of what was written.
    pub fn digest128(&self) -> (d: u128)
        ensures
            xxh3_hasher_digest(d, self.written()),
    {
        xxh3_finish(self)
    }
}

} // verus!
