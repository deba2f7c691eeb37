//! Permission bitfield codec.
//!
//! A resource permission value packs nine use/manage/admin flags for the
//! owner, group and other subjects into one 9-bit integer: owner in bits 6-8,
//! group in bits 3-5, other in bits 0-2, with use as the high bit of each
//! 3-bit field, manage in the middle and admin as the low bit.

use vstd::prelude::*;

pub mod flags;

verus! {

/// The nine decomposed permission flags, each 0 or 1, in the fixed order
/// owner-use, owner-manage, owner-admin, group-use, group-manage,
/// group-admin, other-use, other-manage, other-admin.
#[derive(Debug, Clone, Copy, PartialEq, Eq, Structural)]
pub struct PermissionsBits(
    pub u8,
    pub u8,
    pub u8,
    pub u8,
    pub u8,
    pub u8,
    pub u8,
    pub u8,
    pub u8,
);

/// A packed 9-bit permission value.
#[derive(Debug, Clone, Copy, PartialEq, Eq, Structural)]
pub struct Permissions(pub u16);

/// Flag at bit `i` of `v`: 1 when the bit is set, else 0.
pub open spec fn bit_of(v: u16, i: u16) -> u8
    recommends
        i < 16,
{
    ((v >> i) & 1) as u8
}

/// The nine flags packed in `v`, owner-use (bit 8) first.
pub open spec fn spec_decode(v: u16) -> PermissionsBits {
    PermissionsBits(
        bit_of(v, 8),
        bit_of(v, 7),
        bit_of(v, 6),
        bit_of(v, 5),
        bit_of(v, 4),
        bit_of(v, 3),
        bit_of(v, 2),
        bit_of(v, 1),
        bit_of(v, 0),
    )
}

/// The packed value of nine flags; each flag is read as its low bit only.
pub open spec fn spec_encode(b: PermissionsBits) -> u16 {
    (((b.0 & 1) as u16) << 8) | (((b.1 & 1) as u16) << 7) | (((b.2 & 1) as u16) << 6) | (((b.3
        & 1) as u16) << 5) | (((b.4 & 1) as u16) << 4) | (((b.5 & 1) as u16) << 3) | (((b.6
        & 1) as u16) << 2) | (((b.7 & 1) as u16) << 1) | ((b.8 & 1) as u16)
}

impl Permissions {
    /// Split the packed value into its nine 0/1 flags.
    pub fn decode(&self) -> (r: PermissionsBits)
        ensures
            r == spec_decode(self.0),
    {
        let v = self.0;
        let r = PermissionsBits(
            ((v >> 8) & 1) as u8,
            ((v >> 7) & 1) as u8,
            ((v >> 6) & 1) as u8,
            ((v >> 5) & 1) as u8,
            ((v >> 4) & 1) as u8,
            ((v >> 3) & 1) as u8,
            ((v >> 2) & 1) as u8,
            ((v >> 1) & 1) as u8,
            (v & 1) as u8,
        );
        assert(v & 1 == (v >> 0) & 1) by (bit_vector);
        r
    }
}

impl PermissionsBits {
    /// Pack the nine flags back into one value.
    pub fn encode(&self) -> (r: Permissions)
        ensures
            r.0 == spec_encode(*self),
            r.0 < 512,
    {
        let v: u16 = (((self.0 & 1) as u16) << 8) | (((self.1 & 1) as u16) << 7) | (((self.2
            & 1) as u16) << 6) | (((self.3 & 1) as u16) << 5) | (((self.4 & 1) as u16) << 4)
            | (((self.5 & 1) as u16) << 3) | (((self.6 & 1) as u16) << 2) | (((self.7
            & 1) as u16) << 1) | ((self.8 & 1) as u16);
        proof {
            let b0 = self.0;
            let b1 = self.1;
            let b2 = self.2;
            let b3 = self.3;
            let b4 = self.4;
            let b5 = self.5;
            let b6 = self.6;
            let b7 = self.7;
            let b8 = self.8;
            assert((((b0 & 1) as u16) << 8) | (((b1 & 1) as u16) << 7) | (((b2 & 1) as u16) << 6)
                | (((b3 & 1) as u16) << 5) | (((b4 & 1) as u16) << 4) | (((b5 & 1) as u16) << 3)
                | (((b6 & 1) as u16) << 2) | (((b7 & 1) as u16) << 1) | ((b8 & 1) as u16)
                < 512) by (bit_vector);
        }
        Permissions(v)
    }
}

impl From<Permissions> for PermissionsBits {
    /// Decomposing a packed value yields its nine 0/1 flags.
    fn from(v: Permissions) -> (r: PermissionsBits) {
        v.decode()
    }
}

impl vstd::std_specs::convert::FromSpecImpl<Permissions> for PermissionsBits {
    open spec fn obeys_from_spec() -> bool {
        true
    }

    open spec fn from_spec(v: Permissions) -> Self {
        spec_decode(v.0)
    }
}

impl From<PermissionsBits> for Permissions {
    /// Packing nine flags yields the 9-bit value.
    fn from(b: PermissionsBits) -> (r: Permissions) {
        b.encode()
    }
}

impl vstd::std_specs::convert::FromSpecImpl<PermissionsBits> for Permissions {
    open spec fn obeys_from_spec() -> bool {
        true
    }

    open spec fn from_spec(b: PermissionsBits) -> Self {
        Permissions(spec_encode(b))
    }
}

/// Packing the flags decomposed from any 9-bit value restores that value.
pub proof fn lemma_encode_decode(v: u16)
    requires
        v < 512,
    ensures
        spec_encode(spec_decode(v)) == v,
{
    assert(spec_encode(spec_decode(v)) == v) by (bit_vector)
        requires
            v < 512,
    ;
}

/// Decomposing the value packed from any nine 0/1 flags restores the flags.
pub proof fn lemma_decode_encode(b: PermissionsBits)
    requires
        b.0 <= 1,
        b.1 <= 1,
        b.2 <= 1,
        b.3 <= 1,
        b.4 <= 1,
        b.5 <= 1,
        b.6 <= 1,
        b.7 <= 1,
        b.8 <= 1,
    ensures
        spec_decode(spec_encode(b)) == b,
{
    let b0 = b.0;
    let b1 = b.1;
    let b2 = b.2;
    let b3 = b.3;
    let b4 = b.4;
    let b5 = b.5;
    let b6 = b.6;
    let b7 = b.7;
    let b8 = b.8;
    let v = spec_encode(b);
    assert(bit_of(v, 8) == b0 && bit_of(v, 7) == b1 && bit_of(v, 6) == b2 && bit_of(v, 5) == b3
        && bit_of(v, 4) == b4 && bit_of(v, 3) == b5 && bit_of(v, 2) == b6 && bit_of(v, 1) == b7
        && bit_of(v, 0) == b8) by (bit_vector)
        requires
            b0 <= 1 && b1 <= 1 && b2 <= 1 && b3 <= 1 && b4 <= 1 && b5 <= 1 && b6 <= 1 && b7 <= 1
                && b8 <= 1,
            v == (((b0 & 1) as u16) << 8) | (((b1 & 1) as u16) << 7) | (((b2 & 1) as u16) << 6) | (
            ((b3 & 1) as u16) << 5) | (((b4 & 1) as u16) << 4) | (((b5 & 1) as u16) << 3) | (((b6
                & 1) as u16) << 2) | (((b7 & 1) as u16) << 1) | ((b8 & 1) as u16),
    ;
}

/// The fixed 3-character rendering of one 3-bit rights field.
pub open spec fn spec_triad(f: u16) -> Seq<char> {
    if f == 0 {
        "---"@
    } else if f == 1 {
        "--a"@
    } else if f == 2 {
        "-m-"@
    } else if f == 3 {
        "-ma"@
    } else if f == 4 {
        "u--"@
    } else if f == 5 {
        "u-a"@
    } else if f == 6 {
        "um-"@
    } else {
        "uma"@
    }
}

/// The 9-character rendering: owner, group and other fields in turn.
pub open spec fn spec_render(v: u16) -> Seq<char> {
    spec_triad((v >> 6) & 7) + spec_triad((v >> 3) & 7) + spec_triad(v & 7)
}

fn triad(f: u16) -> (r: &'static str)
    requires
        f < 8,
    ensures
        r@ == spec_triad(f),
{
    if f == 0 {
        "---"
    } else if f == 1 {
        "--a"
    } else if f == 2 {
        "-m-"
    } else if f == 3 {
        "-ma"
    } else if f == 4 {
        "u--"
    } else if f == 5 {
        "u-a"
    } else if f == 6 {
        "um-"
    } else {
        "uma"
    }
}

impl Permissions {
    /// The fixed 9-character rendering of the permission value.
    pub fn render(&self) -> (r: String)
        ensures
            r@ == spec_render(self.0),
    {
        let v = self.0;
        assert((v >> 6) & 7 < 8 && (v >> 3) & 7 < 8 && v & 7 < 8) by (bit_vector);
        let mut s = String::new();
        s.append(triad((v >> 6) & 7));
        s.append(triad((v >> 3) & 7));
        s.append(triad(v & 7));
        s
    }
}

} // verus!
