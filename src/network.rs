use crate::attributes::Attribute;
use crate::bits::{bits_value, lemma_bits_value_bound, read_bits, unread_bits};
use bitter::LittleEndianReader;
use vstd::arithmetic::power2::{
    lemma2_to64, lemma2_to64_rest, lemma_pow2_strictly_increases, lemma_pow2_unfold, pow2,
};
use vstd::bits::lemma_u64_shl_is_mul;
use vstd::prelude::*;

verus! {

/// The identity of an actor type: an index into the replay's object table.
#[derive(Clone, Copy, PartialEq, Eq, Structural, PartialOrd, Ord, Debug, Hash)]
pub struct ObjectId(pub i32);

/// The compact form in which a frame names an attribute's object id.
#[derive(Clone, Copy, PartialEq, Eq, Structural, PartialOrd, Ord, Debug, Hash)]
pub struct StreamId(pub i32);

/// A live actor instance. Ids are reused once the actor holding them is deleted.
#[derive(Clone, Copy, PartialEq, Eq, Structural, PartialOrd, Ord, Debug, Hash)]
pub struct ActorId(pub i32);

/// An integer displacement together with the bias that its encoded width implies.
#[derive(Clone, Copy, PartialEq, Eq, Structural, Debug)]
pub struct Vector {
    pub bias: i32,
    pub dx: i32,
    pub dy: i32,
    pub dz: i32,
}

/// Three independently optional signed byte components.
#[derive(Clone, Copy, PartialEq, Eq, Structural, Debug)]
pub struct Rotation {
    pub yaw: Option<i8>,
    pub pitch: Option<i8>,
    pub roll: Option<i8>,
}

/// The shape of the placement that an actor carries when it spawns.
#[derive(Clone, Copy, PartialEq, Eq, Structural, Debug)]
pub enum SpawnTrajectory {
    Empty,
    Location,
    LocationAndRotation,
}

/// The optional location and rotation of an actor when it spawns.
#[derive(Clone, Copy, PartialEq, Eq, Structural, Debug)]
pub struct Trajectory {
    pub location: Option<Vector>,
    pub rotation: Option<Rotation>,
}

/// An actor that appears in a frame.
#[derive(Clone, Copy, PartialEq, Eq, Structural, Debug)]
pub struct NewActor {
    /// The id given to the new actor.
    pub actor_id: ActorId,
    /// An optional name id.
    pub name_id: Option<i32>,
    /// The actor's type.
    pub object_id: ObjectId,
    /// Where the actor appeared.
    pub initial_trajectory: Trajectory,
}

/// A new value of one attribute of a live actor.
#[derive(Clone, Copy, PartialEq, Eq, Structural, Debug)]
pub struct UpdatedAttribute {
    /// The actor whose attribute changed.
    pub actor_id: ActorId,
    /// The compact id under which the frame named the attribute.
    pub stream_id: StreamId,
    /// The attribute's object id.
    pub object_id: ObjectId,
    /// The decoded value.
    pub attribute: Attribute,
}

/// The events of one frame, with its time and the time since the previous frame, both in
/// microseconds.
#[derive(Clone, PartialEq, Eq, Debug)]
pub struct Frame {
    pub time: u64,
    pub delta: u32,
    pub new_actors: Vec<NewActor>,
    pub deleted_actors: Vec<ActorId>,
    pub updated_actors: Vec<UpdatedAttribute>,
}

/// The largest size selector (exclusive) for a network version.
pub open spec fn size_bits_limit(net_version: i32) -> nat {
    if net_version >= 7 {
        22
    } else {
        20
    }
}

/// The bits at `start .. start + width`, read as an unsigned value.
pub open spec fn field(s: Seq<bool>, start: nat, width: nat) -> nat {
    bits_value(s.subrange(start as int, (start + width) as int))
}

/// A value below `max` sent in `bits` low bits, followed by one more bit only where
/// setting the next power of two would still stay below `max`: the value and the
/// number of bits it took.
pub open spec fn bounded_value(s: Seq<bool>, bits: nat, max: nat) -> Option<(nat, nat)> {
    if s.len() < bits {
        None
    } else {
        let data = bits_value(s.take(bits as int));
        let up = data + pow2(bits);
        if up >= max {
            Some((data, bits))
        } else if s.len() < bits + 1 {
            None
        } else if s[bits as int] {
            Some((up, bits + 1))
        } else {
            Some((data, bits + 1))
        }
    }
}

/// A vector on the wire: a size selector, then three axes of `size + 2` bits each.
/// Yields the vector and the number of bits it took.
pub open spec fn vector_decode(s: Seq<bool>, net_version: i32) -> Option<(Vector, nat)> {
    match bounded_value(s, 4, size_bits_limit(net_version)) {
        None => None,
        Some((size, used)) => {
            let w = size + 2;
            if s.len() < used + 3 * w {
                None
            } else {
                Some(
                    (
                        Vector {
                            bias: pow2(size + 1) as i32,
                            dx: field(s, used, w) as i32,
                            dy: field(s, used + w, w) as i32,
                            dz: field(s, used + 2 * w, w) as i32,
                        },
                        used + 3 * w,
                    ),
                )
            }
        },
    }
}

/// The number of bits that a vector takes at most for a network version.
pub open spec fn vector_bits_max(net_version: i32) -> nat {
    5 + 3 * (size_bits_limit(net_version) + 1)
}

/// A byte read as two's complement.
pub open spec fn byte_to_i8(b: nat) -> i8 {
    if b < 128 {
        b as i8
    } else {
        (b - 256) as i8
    }
}

/// A presence flag, followed by a signed byte where the flag is set.
pub open spec fn optional_byte(s: Seq<bool>) -> Option<(Option<i8>, nat)> {
    if s.len() < 1 {
        None
    } else if !s[0] {
        Some((None, 1))
    } else if s.len() < 9 {
        None
    } else {
        Some((Some(byte_to_i8(field(s, 1, 8))), 9))
    }
}

/// A rotation on the wire: yaw, pitch and roll, each an optional byte.
pub open spec fn rotation_decode(s: Seq<bool>) -> Option<(Rotation, nat)> {
    match optional_byte(s) {
        None => None,
        Some((yaw, a)) => match optional_byte(s.skip(a as int)) {
            None => None,
            Some((pitch, b)) => match optional_byte(s.skip((a + b) as int)) {
                None => None,
                Some((roll, c)) => Some((Rotation { yaw, pitch, roll }, a + b + c)),
            },
        },
    }
}

/// The number of bits that a rotation takes at most.
pub open spec fn rotation_bits_max() -> nat {
    27
}

/// A spawn trajectory of the given shape: nothing, a vector, or a vector then a rotation.
pub open spec fn trajectory_decode(s: Seq<bool>, sp: SpawnTrajectory, net_version: i32) -> Option<
    (Trajectory, nat),
> {
    match sp {
        SpawnTrajectory::Empty => Some((Trajectory { location: None, rotation: None }, 0)),
        SpawnTrajectory::Location => match vector_decode(s, net_version) {
            None => None,
            Some((v, n)) => Some((Trajectory { location: Some(v), rotation: None }, n)),
        },
        SpawnTrajectory::LocationAndRotation => match vector_decode(s, net_version) {
            None => None,
            Some((v, n)) => match rotation_decode(s.skip(n as int)) {
                None => None,
                Some((r, m)) => Some((Trajectory { location: Some(v), rotation: Some(r) }, n + m)),
            },
        },
    }
}

/// The number of bits that a trajectory of the given shape takes at most.
pub open spec fn trajectory_bits_max(sp: SpawnTrajectory, net_version: i32) -> nat {
    match sp {
        SpawnTrajectory::Empty => 0,
        SpawnTrajectory::Location => vector_bits_max(net_version),
        SpawnTrajectory::LocationAndRotation => vector_bits_max(net_version) + rotation_bits_max(),
    }
}

proof fn lemma_skip_skip(s: Seq<bool>, a: int, b: int)
    requires
        0 <= a,
        0 <= b,
        a + b <= s.len(),
    ensures
        s.skip(a).skip(b) == s.skip(a + b),
        s.skip(a).take(b) == s.subrange(a, a + b),
{
    assert(s.skip(a).skip(b) =~= s.skip(a + b));
    assert(s.skip(a).take(b) =~= s.subrange(a, a + b));
}

proof fn lemma_one_bit(s: Seq<bool>)
    requires
        s.len() == 1,
    ensures
        bits_value(s) == (if s[0] { 1nat } else { 0nat }),
{
    assert(bits_value(s.drop_first()) == 0);
}

/// Reads a value below `max` that takes `bits` bits, or one more where the next power of
/// two would still stay below `max`.
fn read_bits_max_computed(r: &mut LittleEndianReader<'_>, bits: u32, max: u64) -> (res: Option<
    u64,
>)
    requires
        bits < 63,
    ensures
        match bounded_value(unread_bits(*old(r)), bits as nat, max as nat) {
            Some((v, n)) => res == Some(v as u64) && unread_bits(*final(r)) == unread_bits(
                *old(r),
            ).skip(n as int),
            None => res is None,
        },
{
    let ghost s = unread_bits(*r);
    let data = match read_bits(r, bits) {
        Some(d) => d,
        None => return None,
    };
    proof {
        lemma_bits_value_bound(s.take(bits as int));
        lemma_pow2_strictly_increases(bits as nat + 1, 64);
        lemma_pow2_unfold(bits as nat + 1);
        lemma2_to64_rest();
        lemma_u64_shl_is_mul(1, bits as u64);
    }
    let up = data + (1u64 << bits as u64);
    if up >= max {
        Some(data)
    } else {
        let ghost s1 = unread_bits(*r);
        match read_bits(r, 1) {
            Some(x) => {
                proof {
                    lemma_skip_skip(s, bits as int, 1);
                    lemma_one_bit(s1.take(1));
                }
                if x == 1 {
                    Some(up)
                } else {
                    Some(data)
                }
            },
            None => None,
        }
    }
}

/// Reads a presence flag and, where it is set, a signed byte.
fn read_optional_i8(r: &mut LittleEndianReader<'_>) -> (res: Option<Option<i8>>)
    ensures
        match optional_byte(unread_bits(*old(r))) {
            Some((v, n)) => res == Some(v) && unread_bits(*final(r)) == unread_bits(*old(r)).skip(
                n as int,
            ),
            None => res is None,
        },
{
    let ghost s = unread_bits(*r);
    let flag = match read_bits(r, 1) {
        Some(f) => f,
        None => return None,
    };
    proof {
        lemma_one_bit(s.take(1));
    }
    if flag == 0 {
        return Some(None);
    }
    let ghost s1 = unread_bits(*r);
    let b = match read_bits(r, 8) {
        Some(b) => b,
        None => return None,
    };
    proof {
        lemma_skip_skip(s, 1, 8);
        lemma_bits_value_bound(s1.take(8));
        lemma2_to64();
    }
    let byte = b as u8;
    let v: i8 = if byte < 128 {
        byte as i8
    } else {
        (byte as i16 - 256) as i8
    };
    Some(Some(v))
}

impl Vector {
    /// Decodes a vector whose width limit depends on the network version; `None` where the
    /// bits run out.
    pub fn decode(bits: &mut LittleEndianReader<'_>, net_version: i32) -> (res: Option<Vector>)
        ensures
            match vector_decode(unread_bits(*old(bits)), net_version) {
                Some((v, n)) => res == Some(v) && unread_bits(*final(bits)) == unread_bits(
                    *old(bits),
                ).skip(n as int),
                None => res is None,
            },
    {
        let ghost s = unread_bits(*bits);
        let max: u64 = if net_version >= 7 {
            22
        } else {
            20
        };
        let size_bits = match read_bits_max_computed(bits, 4, max) {
            Some(x) => x,
            None => return None,
        };
        let ghost used: nat = if bits_value(s.take(4)) + pow2(4) >= max as nat {
            4
        } else {
            5
        };
        proof {
            lemma2_to64();
            lemma_bits_value_bound(s.take(4));
            assert(size_bits < 22);
            lemma_u64_shl_is_mul(1, (size_bits + 1) as u64);
        }
        let bias = 1u64 << (size_bits + 1);
        let bit_limit = (size_bits + 2) as u32;
        let ghost w = bit_limit as nat;
        let ghost s1 = unread_bits(*bits);
        let dx = match read_bits(bits, bit_limit) {
            Some(x) => x,
            None => {
                assert(s.len() < used + 3 * w);
                return None;
            },
        };
        let ghost s2 = unread_bits(*bits);
        let dy = match read_bits(bits, bit_limit) {
            Some(x) => x,
            None => {
                proof {
                    lemma_skip_skip(s, used as int, w as int);
                }
                return None;
            },
        };
        let ghost s3 = unread_bits(*bits);
        let dz = match read_bits(bits, bit_limit) {
            Some(x) => x,
            None => {
                proof {
                    lemma_skip_skip(s, used as int, w as int);
                    lemma_skip_skip(s, (used + w) as int, w as int);
                }
                return None;
            },
        };
        proof {
            lemma_skip_skip(s, used as int, w as int);
            lemma_skip_skip(s, (used + w) as int, w as int);
            lemma_skip_skip(s, (used + 2 * w) as int, w as int);
            lemma_bits_value_bound(s1.take(w as int));
            lemma_bits_value_bound(s2.take(w as int));
            lemma_bits_value_bound(s3.take(w as int));
            lemma_pow2_strictly_increases(w, 31);
            lemma_pow2_strictly_increases(size_bits as nat + 1, 31);
        }
        Some(Vector { bias: bias as i32, dx: dx as i32, dy: dy as i32, dz: dz as i32 })
    }

    /// Decodes a vector from a reader already known to hold one: the result and the bits
    /// taken are those of the checked decode.
    pub fn decode_unchecked(bits: &mut LittleEndianReader<'_>, net_version: i32) -> (res: Vector)
        requires
            vector_decode(unread_bits(*old(bits)), net_version) is Some,
        ensures
            vector_decode(unread_bits(*old(bits)), net_version) == Some(
                (res, (unread_bits(*old(bits)).len() - unread_bits(*final(bits)).len()) as nat),
            ),
            unread_bits(*final(bits)) == unread_bits(*old(bits)).skip(
                unread_bits(*old(bits)).len() - unread_bits(*final(bits)).len(),
            ),
    {
        Self::decode(bits, net_version).unwrap()
    }
}

impl Rotation {
    /// Decodes the three optional components; `None` where the bits run out.
    pub fn decode(bits: &mut LittleEndianReader<'_>) -> (res: Option<Rotation>)
        ensures
            match rotation_decode(unread_bits(*old(bits))) {
                Some((v, n)) => res == Some(v) && unread_bits(*final(bits)) == unread_bits(
                    *old(bits),
                ).skip(n as int),
                None => res is None,
            },
    {
        let ghost s = unread_bits(*bits);
        let yaw = match read_optional_i8(bits) {
            Some(v) => v,
            None => return None,
        };
        let ghost a = optional_byte(s).unwrap().1;
        let pitch = match read_optional_i8(bits) {
            Some(v) => v,
            None => return None,
        };
        let ghost b = optional_byte(s.skip(a as int)).unwrap().1;
        proof {
            assert(s.skip(a as int).skip(b as int) =~= s.skip((a + b) as int));
        }
        let roll = match read_optional_i8(bits) {
            Some(v) => v,
            None => return None,
        };
        let ghost c = optional_byte(s.skip((a + b) as int)).unwrap().1;
        proof {
            assert(s.skip((a + b) as int).skip(c as int) =~= s.skip((a + b + c) as int));
        }
        Some(Rotation { yaw, pitch, roll })
    }

    /// Decodes a rotation from a reader already known to hold one: the result and the bits
    /// taken are those of the checked decode.
    pub fn decode_unchecked(bits: &mut LittleEndianReader<'_>) -> (res: Rotation)
        requires
            rotation_decode(unread_bits(*old(bits))) is Some,
        ensures
            rotation_decode(unread_bits(*old(bits))) == Some(
                (res, (unread_bits(*old(bits)).len() - unread_bits(*final(bits)).len()) as nat),
            ),
            unread_bits(*final(bits)) == unread_bits(*old(bits)).skip(
                unread_bits(*old(bits)).len() - unread_bits(*final(bits)).len(),
            ),
    {
        Self::decode(bits).unwrap()
    }
}

impl Trajectory {
    /// Decodes the placement of a spawning actor, of the shape that its type dictates.
    /// Either the whole trajectory decodes or the result is `None`.
    pub fn from_spawn(bits: &mut LittleEndianReader<'_>, sp: SpawnTrajectory, net_version: i32) -> (res:
        Option<Trajectory>)
        ensures
            match trajectory_decode(unread_bits(*old(bits)), sp, net_version) {
                Some((t, n)) => res == Some(t) && unread_bits(*final(bits)) == unread_bits(
                    *old(bits),
                ).skip(n as int),
                None => res is None,
            },
    {
        let ghost s = unread_bits(*bits);
        match sp {
            SpawnTrajectory::Empty => {
                proof {
                    assert(s.skip(0) =~= s);
                }
                Some(Trajectory { location: None, rotation: None })
            },
            SpawnTrajectory::Location => match Vector::decode(bits, net_version) {
                Some(v) => Some(Trajectory { location: Some(v), rotation: None }),
                None => None,
            },
            SpawnTrajectory::LocationAndRotation => {
                let v = match Vector::decode(bits, net_version) {
                    Some(v) => v,
                    None => return None,
                };
                let ghost n = vector_decode(s, net_version).unwrap().1;
                let r = match Rotation::decode(bits) {
                    Some(r) => r,
                    None => return None,
                };
                let ghost m = rotation_decode(s.skip(n as int)).unwrap().1;
                proof {
                    assert(s.skip(n as int).skip(m as int) =~= s.skip((n + m) as int));
                }
                Some(Trajectory { location: Some(v), rotation: Some(r) })
            },
        }
    }

    /// Decodes a trajectory from a reader already known to hold one: the result and the bits
    /// taken are those of the checked decode.
    pub fn from_spawn_unchecked(
        bits: &mut LittleEndianReader<'_>,
        sp: SpawnTrajectory,
        net_version: i32,
    ) -> (res: Trajectory)
        requires
            trajectory_decode(unread_bits(*old(bits)), sp, net_version) is Some,
        ensures
            trajectory_decode(unread_bits(*old(bits)), sp, net_version) == Some(
                (res, (unread_bits(*old(bits)).len() - unread_bits(*final(bits)).len()) as nat),
            ),
            unread_bits(*final(bits)) == unread_bits(*old(bits)).skip(
                unread_bits(*old(bits)).len() - unread_bits(*final(bits)).len(),
            ),
    {
        Self::from_spawn(bits, sp, net_version).unwrap()
    }
}

/// Room for the widest vector of the network version is enough for a vector to decode, and
/// so for the unchecked decoder's precondition.
pub proof fn lemma_vector_fits(s: Seq<bool>, net_version: i32)
    requires
        s.len() >= vector_bits_max(net_version),
    ensures
        vector_decode(s, net_version) is Some,
        vector_decode(s, net_version).unwrap().1 <= vector_bits_max(net_version),
{
    lemma2_to64();
    lemma_bits_value_bound(s.take(4));
}

/// Room for the widest rotation is enough for a rotation to decode, and so for the unchecked
/// decoder's precondition.
pub proof fn lemma_rotation_fits(s: Seq<bool>)
    requires
        s.len() >= rotation_bits_max(),
    ensures
        rotation_decode(s) is Some,
        rotation_decode(s).unwrap().1 <= rotation_bits_max(),
{
}

/// Room for the widest trajectory of the shape is enough for a trajectory to decode, and so
/// for the unchecked decoder's precondition.
pub proof fn lemma_trajectory_fits(s: Seq<bool>, sp: SpawnTrajectory, net_version: i32)
    requires
        s.len() >= trajectory_bits_max(sp, net_version),
    ensures
        trajectory_decode(s, sp, net_version) is Some,
        trajectory_decode(s, sp, net_version).unwrap().1 <= trajectory_bits_max(sp, net_version),
{
    if sp != SpawnTrajectory::Empty {
        lemma_vector_fits(s, net_version);
        if sp == SpawnTrajectory::LocationAndRotation {
            lemma_rotation_fits(s.skip(vector_decode(s, net_version).unwrap().1 as int));
        }
    }
}

/// A vector's decode reads no further than the bits it reports as taken: any input that
/// agrees on those bits decodes to the same vector, so the result is a function of the bits
/// and the network version alone.
pub proof fn lemma_vector_decode_deterministic(s: Seq<bool>, t: Seq<bool>, net_version: i32)
    requires
        vector_decode(s, net_version) is Some,
        t.len() >= vector_decode(s, net_version).unwrap().1,
        t.take(vector_decode(s, net_version).unwrap().1 as int) == s.take(
            vector_decode(s, net_version).unwrap().1 as int,
        ),
    ensures
        vector_decode(t, net_version) == vector_decode(s, net_version),
{
    let n = vector_decode(s, net_version).unwrap().1 as int;
    let p = s.take(n);
    assert(s.take(4) =~= p.take(4));
    assert(t.take(4) =~= p.take(4));
    if n >= 5 {
        assert(s[4] == p[4]);
        assert(t[4] == p[4]);
    }
    let (size, used) = bounded_value(s, 4, size_bits_limit(net_version)).unwrap();
    let w = size + 2;
    assert(s.subrange(used as int, (used + w) as int) =~= p.subrange(used as int, (used + w) as int));
    assert(t.subrange(used as int, (used + w) as int) =~= p.subrange(used as int, (used + w) as int));
    assert(s.subrange((used + w) as int, (used + 2 * w) as int) =~= p.subrange(
        (used + w) as int,
        (used + 2 * w) as int,
    ));
    assert(t.subrange((used + w) as int, (used + 2 * w) as int) =~= p.subrange(
        (used + w) as int,
        (used + 2 * w) as int,
    ));
    assert(s.subrange((used + 2 * w) as int, (used + 3 * w) as int) =~= p.subrange(
        (used + 2 * w) as int,
        (used + 3 * w) as int,
    ));
    assert(t.subrange((used + 2 * w) as int, (used + 3 * w) as int) =~= p.subrange(
        (used + 2 * w) as int,
        (used + 3 * w) as int,
    ));
}

/// The `width` low bits of `v`, least significant first.
pub open spec fn value_bits(v: nat, width: nat) -> Seq<bool>
    decreases width,
{
    if width == 0 {
        Seq::empty()
    } else {
        seq![v % 2 == 1] + value_bits(v / 2, (width - 1) as nat)
    }
}

/// The base-two logarithm, rounded down.
pub open spec fn log2(n: nat) -> nat
    decreases n,
{
    if n <= 1 {
        0
    } else {
        1 + log2(n / 2)
    }
}

/// The selector bits that encode a vector size: the size, or the size less sixteen
/// followed by a set bit, with a clear bit after a small size only where the decoder reads
/// one.
pub open spec fn size_selector_bits(size: nat, max: nat) -> Seq<bool> {
    if size >= 16 {
        value_bits((size - 16) as nat, 4).push(true)
    } else if size + 16 >= max {
        value_bits(size, 4)
    } else {
        value_bits(size, 4).push(false)
    }
}

/// A vector on the wire, with the width that its bias implies.
pub open spec fn vector_encode(v: Vector, net_version: i32) -> Seq<bool> {
    let size = (log2(v.bias as nat) - 1) as nat;
    let w = size + 2;
    size_selector_bits(size, size_bits_limit(net_version)) + value_bits(v.dx as nat, w)
        + value_bits(v.dy as nat, w) + value_bits(v.dz as nat, w)
}

proof fn lemma_value_bits_inverse(s: Seq<bool>)
    ensures
        value_bits(bits_value(s), s.len()) == s,
    decreases s.len(),
{
    if s.len() > 0 {
        let r = s.drop_first();
        lemma_value_bits_inverse(r);
        let b: nat = if s[0] { 1 } else { 0 };
        let k = bits_value(r);
        assert((b + 2 * k) % 2 == b) by (nonlinear_arith)
            requires
                b <= 1,
        ;
        assert((b + 2 * k) / 2 == k) by (nonlinear_arith)
            requires
                b <= 1,
        ;
        assert(s =~= seq![s[0]] + r);
    }
}

proof fn lemma_log2_pow2(k: nat)
    ensures
        log2(pow2(k)) == k,
    decreases k,
{
    lemma2_to64();
    if k > 0 {
        lemma_log2_pow2((k - 1) as nat);
        lemma_pow2_unfold(k);
        lemma_pow2_strictly_increases(0, (k - 1) as nat + 1);
        assert(pow2(k) / 2 == pow2((k - 1) as nat));
    }
}

/// Re-encoding a decoded vector with the width rule of the same network version gives back
/// exactly the bits that the decode read.
pub proof fn lemma_vector_round_trip(s: Seq<bool>, net_version: i32)
    requires
        vector_decode(s, net_version) is Some,
    ensures
        vector_encode(vector_decode(s, net_version).unwrap().0, net_version) == s.take(
            vector_decode(s, net_version).unwrap().1 as int,
        ),
{
    lemma2_to64();
    let max = size_bits_limit(net_version);
    let (size, used) = bounded_value(s, 4, max).unwrap();
    let (v, n) = vector_decode(s, net_version).unwrap();
    let w = size + 2;
    lemma_bits_value_bound(s.take(4));
    assert(size < 22);
    lemma_pow2_strictly_increases(size + 1, 31);
    lemma_log2_pow2(size + 1);
    assert(v.bias as nat == pow2(size + 1));
    assert((log2(v.bias as nat) - 1) as nat == size);
    let a = s.subrange(used as int, (used + w) as int);
    let b = s.subrange((used + w) as int, (used + 2 * w) as int);
    let c = s.subrange((used + 2 * w) as int, (used + 3 * w) as int);
    lemma_pow2_strictly_increases(w, 31);
    lemma_bits_value_bound(a);
    lemma_bits_value_bound(b);
    lemma_bits_value_bound(c);
    assert(v.dx as nat == bits_value(a));
    assert(v.dy as nat == bits_value(b));
    assert(v.dz as nat == bits_value(c));
    lemma_value_bits_inverse(a);
    lemma_value_bits_inverse(b);
    lemma_value_bits_inverse(c);
    lemma_value_bits_inverse(s.take(4));
    let data = bits_value(s.take(4));
    if used == 5 {
        assert(s.take(5) =~= s.take(4).push(s[4]));
        if s[4] {
            assert(size == data + 16);
        }
    }
    assert(size_selector_bits(size, max) == s.take(used as int));
    assert(s.take(n as int) =~= s.take(used as int) + a + b + c);
}

/// Each rotation component is present exactly where its flag is set: with every flag clear
/// all three are absent, and setting a single flag fills in that component alone.
pub proof fn lemma_rotation_flags(s: Seq<bool>)
    requires
        s.len() >= rotation_bits_max(),
    ensures
        !s[0] && !s[1] && !s[2] ==> rotation_decode(s) == Some(
            (Rotation { yaw: None, pitch: None, roll: None }, 3nat),
        ),
        s[0] && !s[9] && !s[10] ==> {
            let r = rotation_decode(s).unwrap().0;
            r.yaw == Some(byte_to_i8(field(s, 1, 8))) && r.pitch is None && r.roll is None
        },
        !s[0] && s[1] && !s[10] ==> {
            let r = rotation_decode(s).unwrap().0;
            r.yaw is None && r.pitch == Some(byte_to_i8(field(s, 2, 8))) && r.roll is None
        },
        !s[0] && !s[1] && s[2] ==> {
            let r = rotation_decode(s).unwrap().0;
            r.yaw is None && r.pitch is None && r.roll == Some(byte_to_i8(field(s, 3, 8)))
        },
{
    if s[0] && !s[9] && !s[10] {
        assert(s.skip(9)[0] == s[9]);
        assert(s.skip(10)[0] == s[10]);
    }
    if !s[0] && s[1] && !s[10] {
        assert(s.skip(1).subrange(1, 9) =~= s.subrange(2, 10));
        assert(s.skip(10)[0] == s[10]);
    }
    if !s[0] && !s[1] && s[2] {
        assert(s.skip(2).subrange(1, 9) =~= s.subrange(3, 11));
    }
}

/// Whether `pat` occurs in `s` as a contiguous run.
pub open spec fn holds_run(s: Seq<char>, pat: Seq<char>) -> bool {
    exists|i: int| 0 <= i && i + pat.len() <= s.len() && #[trigger] s.subrange(i, i + pat.len()) == pat
}

/// The shared name of the family that an object name belongs to, or the name itself.
pub open spec fn normalized_name(name: Seq<char>) -> Seq<char> {
    if holds_run(name, "TheWorld:PersistentLevel.CrowdActor_TA"@) {
        "TheWorld:PersistentLevel.CrowdActor_TA"@
    } else if holds_run(name, "TheWorld:PersistentLevel.CrowdManager_TA"@) {
        "TheWorld:PersistentLevel.CrowdManager_TA"@
    } else if holds_run(name, "TheWorld:PersistentLevel.VehiclePickup_Boost_TA"@) {
        "TheWorld:PersistentLevel.VehiclePickup_Boost_TA"@
    } else if holds_run(name, "TheWorld:PersistentLevel.InMapScoreboard_TA"@) {
        "TheWorld:PersistentLevel.InMapScoreboard_TA"@
    } else if holds_run(name, "TheWorld:PersistentLevel.BreakOutActor_Platform_TA"@) {
        "TheWorld:PersistentLevel.BreakOutActor_Platform_TA"@
    } else {
        name
    }
}

/// Relies on `str::contains` with a `&str` pattern: true exactly where the pattern occurs
/// in the string as a contiguous run.
#[verifier::external_body]
fn str_contains(s: &str, pat: &str) -> (r: bool)
    ensures
        r == holds_run(s@, pat@),
{
    s.contains(pat)
}

/// Maps the names of per-stadium and numbered variants of the same object kind to one
/// shared name, so that all of them are looked up under it.
pub fn normalize_object(name: &str) -> (r: &str)
    ensures
        r@ == normalized_name(name@),
{
    if str_contains(name, "TheWorld:PersistentLevel.CrowdActor_TA") {
        "TheWorld:PersistentLevel.CrowdActor_TA"
    } else if str_contains(name, "TheWorld:PersistentLevel.CrowdManager_TA") {
        "TheWorld:PersistentLevel.CrowdManager_TA"
    } else if str_contains(name, "TheWorld:PersistentLevel.VehiclePickup_Boost_TA") {
        "TheWorld:PersistentLevel.VehiclePickup_Boost_TA"
    } else if str_contains(name, "TheWorld:PersistentLevel.InMapScoreboard_TA") {
        "TheWorld:PersistentLevel.InMapScoreboard_TA"
    } else if str_contains(name, "TheWorld:PersistentLevel.BreakOutActor_Platform_TA") {
        "TheWorld:PersistentLevel.BreakOutActor_Platform_TA"
    } else {
        name
    }
}

} // verus!
