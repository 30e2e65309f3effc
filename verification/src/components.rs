//! The data that an entity of the game world carries, and the bytes it is
//! stored as.

use vstd::prelude::*;

verus! {

/// The four bytes of `x`, most significant first.
pub open spec fn be_bytes(x: u32) -> Seq<u8> {
    seq![
        (x / 0x100_0000) as u8,
        ((x / 0x1_0000) % 0x100) as u8,
        ((x / 0x100) % 0x100) as u8,
        (x % 0x100) as u8,
    ]
}

/// The number whose four bytes, most significant first, start at `at` in
/// `b`.
pub open spec fn be_value(b: Seq<u8>, at: int) -> u32 {
    (b[at] * 0x100_0000 + b[at + 1] * 0x1_0000 + b[at + 2] * 0x100 + b[at + 3]) as u32
}

/// Reading the bytes of a number gives the number.
pub proof fn lemma_be_round_trip(x: u32)
    ensures
        be_bytes(x).len() == 4,
        be_value(be_bytes(x), 0) == x,
{
}

/// Puts the four bytes of `x`, most significant first, at the end of `out`.
fn push_be(out: &mut Vec<u8>, x: u32)
    ensures
        final(out)@ == old(out)@ + be_bytes(x),
{
    out.push((x / 0x100_0000) as u8);
    out.push(((x / 0x1_0000) % 0x100) as u8);
    out.push(((x / 0x100) % 0x100) as u8);
    out.push((x % 0x100) as u8);
    assert(out@ =~= old(out)@ + be_bytes(x));
}

/// The number whose four bytes, most significant first, start at `at` in
/// `data`.
fn read_be(data: &Vec<u8>, at: usize) -> (x: u32)
    requires
        at + 4 <= data.len(),
    ensures
        x == be_value(data@, at as int),
{
    let b0: u32 = data[at] as u32;
    let b1: u32 = data[at + 1] as u32;
    let b2: u32 = data[at + 2] as u32;
    let b3: u32 = data[at + 3] as u32;
    b0 * 0x100_0000 + b1 * 0x1_0000 + b2 * 0x100 + b3
}

/// Where an entity stands: its x and its y coordinate.
#[derive(Clone, Copy, Debug, PartialEq, Eq, Structural)]
pub struct Position(pub u32, pub u32);

impl Position {
    /// The name of this kind of component.
    pub fn component_type() -> (name: &'static str)
        ensures
            name@ == "position"@,
    {
        "position"
    }

    /// The position as 8 bytes: x, then y, each most significant byte
    /// first.
    pub fn serialize(&self) -> (bytes: Vec<u8>)
        ensures
            bytes@ == be_bytes(self.0) + be_bytes(self.1),
            bytes.len() == 8,
    {
        let mut bytes: Vec<u8> = Vec::new();
        push_be(&mut bytes, self.0);
        push_be(&mut bytes, self.1);
        bytes
    }

    /// The position that `data` holds; `None` unless `data` has exactly 8
    /// bytes.
    pub fn deserialize(data: &Vec<u8>) -> (position: Option<Position>)
        ensures
            position == (if data.len() == 8 {
                Some(Position(be_value(data@, 0), be_value(data@, 4)))
            } else {
                None
            }),
    {
        if data.len() != 8 {
            return None;
        }
        Some(Position(read_be(data, 0), read_be(data, 4)))
    }
}

/// The health points that an entity has left. An entity with none is dead.
#[derive(Clone, Copy, Debug, PartialEq, Eq, Structural)]
pub struct Health(pub u32);

impl Health {
    /// The name of this kind of component.
    pub fn component_type() -> (name: &'static str)
        ensures
            name@ == "health"@,
    {
        "health"
    }

    /// The health as 4 bytes, most significant first.
    pub fn serialize(&self) -> (bytes: Vec<u8>)
        ensures
            bytes@ == be_bytes(self.0),
            bytes.len() == 4,
    {
        let mut bytes: Vec<u8> = Vec::new();
        push_be(&mut bytes, self.0);
        bytes
    }

    /// The health that `data` holds; `None` unless `data` has exactly 4
    /// bytes.
    pub fn deserialize(data: &Vec<u8>) -> (health: Option<Health>)
        ensures
            health == (if data.len() == 4 {
                Some(Health(be_value(data@, 0)))
            } else {
                None
            }),
    {
        if data.len() != 4 {
            return None;
        }
        Some(Health(read_be(data, 0)))
    }
}

/// A position that is stored and read back is the same position, and so
/// is a health.
pub proof fn lemma_component_round_trip(position: Position, health: Health)
    ensures
        be_value(be_bytes(position.0) + be_bytes(position.1), 0) == position.0,
        be_value(be_bytes(position.0) + be_bytes(position.1), 4) == position.1,
        be_value(be_bytes(health.0), 0) == health.0,
{
    lemma_be_round_trip(position.0);
    lemma_be_round_trip(position.1);
    lemma_be_round_trip(health.0);
    let both = be_bytes(position.0) + be_bytes(position.1);
    assert(both[0] == be_bytes(position.0)[0] && both[1] == be_bytes(position.0)[1] && both[2]
        == be_bytes(position.0)[2] && both[3] == be_bytes(position.0)[3]);
    assert(both[4] == be_bytes(position.1)[0] && both[5] == be_bytes(position.1)[1] && both[6]
        == be_bytes(position.1)[2] && both[7] == be_bytes(position.1)[3]);
}

} // verus!
