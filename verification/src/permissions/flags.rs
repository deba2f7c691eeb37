//! Named permission flag masks.
//!
//! U stands for the use right, M for manage and A for admin; USR, GRP and
//! OTH name the owner, group and other subjects.

use vstd::prelude::*;

verus! {

pub const USR_UMA: u16 = 0o000700;

pub const USR_U: u16 = 0o000400;

pub const USR_M: u16 = 0o000200;

pub const USR_A: u16 = 0o000100;

pub const GRP_UMA: u16 = 0o000070;

pub const GRP_U: u16 = 0o000030;

pub const GRP_M: u16 = 0o000020;

pub const GRP_A: u16 = 0o000010;

pub const OTH_UMA: u16 = 0o000007;

pub const OTH_U: u16 = 0o000004;

pub const OTH_M: u16 = 0o000002;

pub const OTH_A: u16 = 0o000001;

} // verus!
