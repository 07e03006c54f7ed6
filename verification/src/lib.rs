//! A minimal content-addressed object store in the style of a version-control
//! system's object database.
//!
//! - [`hash`]: the 20-byte content hash and its hex forms.
//! - [`codec`], [`blob`], [`tree`], [`object`]: the canonical bytes of the two
//!   kinds of object, and how they are read back.
//! - [`zlib`]: the compression that stored objects go through.
//! - [`store`]: where an object lies, and the steps that store and read it;
//!   [`disk`] says what those steps achieve on a file system.
//! - [`builder`]: from the walk of a directory to the trees that record it.
//! - [`printer`]: the listing of a tree.
//!
//! The library never touches the file system: it says what is to be done, and
//! is told how it went.

pub mod blob;
pub mod builder;
pub mod codec;
pub mod disk;
pub mod hash;
pub mod numeral;
pub mod object;
pub mod perms;
pub mod printer;
pub mod store;
pub mod stream;
pub mod tree;
pub mod zlib;
