//! World positions and facing directions, and how they are written in commands.
use vstd::prelude::*;
use vstd::string::StringExecFns;

verus! {

broadcast use vstd::string::group_string_axioms;

/// The character for a single decimal digit.
pub open spec fn digit_char(d: int) -> char {
    if d == 0 { '0' }
    else if d == 1 { '1' }
    else if d == 2 { '2' }
    else if d == 3 { '3' }
    else if d == 4 { '4' }
    else if d == 5 { '5' }
    else if d == 6 { '6' }
    else if d == 7 { '7' }
    else if d == 8 { '8' }
    else { '9' }
}

/// The decimal digits of a natural number, most significant first, without leading zeros.
pub open spec fn digits_of(n: nat) -> Seq<char>
    decreases n,
{
    if n < 10 {
        seq![digit_char(n as int)]
    } else {
        digits_of(n / 10).push(digit_char((n % 10) as int))
    }
}

/// An integer written in decimal, with a leading `-` when it is negative.
pub open spec fn decimal_text(v: int) -> Seq<char> {
    if v < 0 {
        seq!['-'] + digits_of((-v) as nat)
    } else {
        digits_of(v as nat)
    }
}

/// Relies on `i64`'s `ToString` (through `Display`): an integer is written in decimal,
/// with a leading `-` for a negative value and no leading zeros.
#[verifier::external_body]
fn decimal(v: i64) -> (r: String)
    ensures
        r@ == decimal_text(v as int),
{
    v.to_string()
}

/// The various directions that blocks can face.
#[derive(Clone, Copy, PartialEq, Eq, Structural, Debug)]
pub enum MinecraftFacingDirection {
    North,
    East,
    South,
    West,
    Up,
    Down,
}

/// The name of a facing direction as it appears in block states.
pub open spec fn facing_name(d: MinecraftFacingDirection) -> Seq<char> {
    match d {
        MinecraftFacingDirection::North => "north"@,
        MinecraftFacingDirection::East => "east"@,
        MinecraftFacingDirection::South => "south"@,
        MinecraftFacingDirection::West => "west"@,
        MinecraftFacingDirection::Up => "up"@,
        MinecraftFacingDirection::Down => "down"@,
    }
}

impl MinecraftFacingDirection {
    /// The lower-case name of the direction (`north`, `east`, ...).
    pub fn name(&self) -> (r: String)
        ensures
            r@ == facing_name(*self),
    {
        match self {
            MinecraftFacingDirection::North => String::from_str("north"),
            MinecraftFacingDirection::East => String::from_str("east"),
            MinecraftFacingDirection::South => String::from_str("south"),
            MinecraftFacingDirection::West => String::from_str("west"),
            MinecraftFacingDirection::Up => String::from_str("up"),
            MinecraftFacingDirection::Down => String::from_str("down"),
        }
    }
}

/// The world position of something, with an optional facing direction.
#[derive(Clone, Copy, PartialEq, Eq, Structural, Debug)]
pub struct MinecraftPosition {
    pub x: i64,
    pub y: i64,
    pub z: i64,
    pub facing: Option<MinecraftFacingDirection>,
}

/// The three coordinates separated by single spaces, as commands expect them.
pub open spec fn command_text(p: MinecraftPosition) -> Seq<char> {
    decimal_text(p.x as int) + seq![' '] + decimal_text(p.y as int) + seq![' '] + decimal_text(
        p.z as int,
    )
}

impl MinecraftPosition {
    /// The position as used in commands: `x y z`, with no commas and no facing.
    pub fn as_command_string(&self) -> (r: String)
        ensures
            r@ == command_text(*self),
    {
        proof {
            reveal_strlit(" ");
        }
        let mut s = decimal(self.x);
        s.append(" ");
        let y = decimal(self.y);
        s.append(y.as_str());
        s.append(" ");
        let z = decimal(self.z);
        s.append(z.as_str());
        assert(s@ =~= command_text(*self));
        s
    }

    /// This position moved by `offset`; the facing direction stays that of `self`.
    pub fn with_offset(&self, offset: MinecraftPosition) -> (r: MinecraftPosition)
        requires
            i64::MIN <= self.x + offset.x <= i64::MAX,
            i64::MIN <= self.y + offset.y <= i64::MAX,
            i64::MIN <= self.z + offset.z <= i64::MAX,
        ensures
            r.x == self.x + offset.x,
            r.y == self.y + offset.y,
            r.z == self.z + offset.z,
            r.facing == self.facing,
    {
        MinecraftPosition {
            x: self.x + offset.x,
            y: self.y + offset.y,
            z: self.z + offset.z,
            facing: self.facing,
        }
    }
}

} // verus!
