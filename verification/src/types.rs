//! The value types that travel with tags: each checks what it is given and
//! reads and writes the shapes of a request and of a storage column.

pub mod bigint;
pub mod integer;
pub mod invite;
pub mod maybe;
pub mod set;
pub mod timestamp;
pub mod unicode_aware;
pub mod url;

pub use self::url::{ConstrainedDiscordUrl, DiscordUrl};
pub use bigint::JsSafeBigInt;
pub use integer::JsSafeInt;
pub use invite::DiscordInvite;
pub use maybe::MaybeMissing;
pub use set::ItemSet;
pub use timestamp::Timestamp;
pub use unicode_aware::NormalisingString;

use vstd::prelude::*;

verus! {

/// A whole number as it may arrive: as a number, or as text that spells one.
#[derive(Debug, PartialEq, Eq)]
pub enum PossibleInt {
    Int(i64),
    Str(String),
}

/// Why a value was not taken for a whole number.
#[derive(Debug, PartialEq, Eq, Clone, Copy)]
pub enum IntError {
    /// The value is neither a whole number nor text.
    NotAnInteger,
    /// The text does not spell a whole number of the width asked for.
    Unparsable,
}

} // verus!
