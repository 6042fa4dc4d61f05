//! Opening the persisted store: what becomes of what was found where the
//! tree is kept. Reading and writing the file is the caller's part.

use crate::folder::{Folder, FolderView};
use vstd::prelude::*;

verus! {

/// Why the store could not be opened.
#[derive(Clone, Copy, Debug, PartialEq, Eq, Structural)]
pub enum StoreError {
    /// The user has no home directory to keep the store in.
    HomeDirectoryNotFound,
    /// The file is there and does not hold a tree.
    ParseFailure,
}

/// What was found where the store is kept.
#[derive(Debug)]
pub enum Found {
    /// The user has no home directory.
    NoHome,
    /// No file could be read.
    NoFile,
    /// A file was read, and what it holds is not a tree.
    Corrupt,
    /// A file was read, and it holds this tree.
    Tree(Folder),
}

/// The tree to work on, and whether it has yet to be written to the store.
#[derive(Debug)]
pub struct Opened {
    pub tree: Folder,
    pub write_back: bool,
}

/// Decides what to work on. A tree that was read is taken as it is. Where
/// there is no file, an empty root is made, to be written out at once. A file
/// that holds no tree is an error, and no tree is made up in its place.
pub fn open(found: Found) -> (opened: Result<Opened, StoreError>)
    ensures
        match found {
            Found::NoHome => opened == Err::<Opened, StoreError>(StoreError::HomeDirectoryNotFound),
            Found::NoFile => {
                &&& opened is Ok
                &&& opened->Ok_0.tree@ == FolderView::empty(Seq::empty())
                &&& opened->Ok_0.write_back
            },
            Found::Corrupt => opened == Err::<Opened, StoreError>(StoreError::ParseFailure),
            Found::Tree(tree) => opened == Ok::<Opened, StoreError>(
                Opened { tree, write_back: false },
            ),
        },
{
    match found {
        Found::NoHome => Err(StoreError::HomeDirectoryNotFound),
        Found::NoFile => Ok(Opened { tree: Folder::new(), write_back: true }),
        Found::Corrupt => Err(StoreError::ParseFailure),
        Found::Tree(tree) => Ok(Opened { tree, write_back: false }),
    }
}

} // verus!
