//! Heights, and the errors of the store.

use vstd::prelude::*;

verus! {

/// Which state of the store a read addresses.
#[derive(Clone, Copy, Debug, PartialEq, Eq, Structural)]
pub enum Height {
    /// The working state of the block in progress.
    Pending,
    /// The state of the last commit.
    Latest,
    /// The state of the commit with this number; 0 is the genesis state,
    /// which precedes the first commit.
    Stable(u64),
}

impl Height {
    /// The height that a raw number stands for: 0 asks for the latest state,
    /// any other number for the commit of that number.
    pub open spec fn of_raw(raw: u64) -> Height {
        if raw == 0 {
            Height::Latest
        } else {
            Height::Stable(raw)
        }
    }
}

impl From<u64> for Height {
    fn from(raw: u64) -> (h: Height) {
        if raw == 0 {
            Height::Latest
        } else {
            Height::Stable(raw)
        }
    }
}

impl vstd::std_specs::convert::FromSpecImpl<u64> for Height {
    open spec fn obeys_from_spec() -> bool {
        true
    }

    open spec fn from_spec(raw: u64) -> Height {
        Height::of_raw(raw)
    }
}

/// Why the store refused an operation.
#[derive(Clone, Copy, Debug, PartialEq, Eq, Structural)]
pub enum StoreError {
    /// The height is not one that the store has committed.
    HeightNotFound,
    /// The store is at the largest height.
    HeightOverflow,
    /// The genesis state can be sealed only before the first commit.
    NotAtGenesis,
    /// The text is empty or holds a character that an identifier may not hold.
    InvalidIdentifier,
    /// The text is not a list of identifiers separated by `/`.
    InvalidPath,
}

impl StoreError {
    /// What went wrong, in words.
    pub open spec fn text(self) -> Seq<char> {
        match self {
            StoreError::HeightNotFound => "height not found"@,
            StoreError::HeightOverflow => "no height left to commit"@,
            StoreError::NotAtGenesis => "the first block is already committed"@,
            StoreError::InvalidIdentifier => "invalid identifier"@,
            StoreError::InvalidPath => "invalid path"@,
        }
    }

    /// What went wrong, in words.
    pub fn message(&self) -> (s: String)
        ensures
            s@ == self.text(),
    {
        match self {
            StoreError::HeightNotFound => "height not found".to_owned(),
            StoreError::HeightOverflow => "no height left to commit".to_owned(),
            StoreError::NotAtGenesis => "the first block is already committed".to_owned(),
            StoreError::InvalidIdentifier => "invalid identifier".to_owned(),
            StoreError::InvalidPath => "invalid path".to_owned(),
        }
    }
}

} // verus!
