//! Client side of the Plan 9 authentication protocols: the classic shared-key
//! scheme built on Plan 9's own DES, and the password-authenticated key
//! exchange over the Goldilocks curve.

pub mod authpak;
pub mod bignum;
pub mod curve;
pub mod curve_laws;
pub mod decaf;
pub mod des9;
pub mod dp9ik;
pub mod elligator2;
pub mod modfield;
pub mod p9sk1;

pub use authpak::{
    authpak_finish, authpak_hash, authpak_new, PakError, PakPriv, PAKHASHLEN, PAKKEYLEN, PAKYLEN,
};
pub use p9sk1::{pass_to_key, P9sk1Client};
