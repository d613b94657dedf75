//! A synthetic directory tree for a mount in user space. What a file
//! shows is not stored: it is rendered, each time it is asked for, from a
//! counter that belongs to the file, and only a write of the token `pets`
//! moves that counter.
//!
//! - [`content`] renders the texts: the three faces of a kitty and the
//!   journal that tallies all kitties.
//! - [`attr`] and [`error`] hold what the engines answer with.
//! - [`entity`] is a node as an inode table holds it; [`tree`] is a tree as
//!   its builder writes it down, and its projection into such nodes.
//! - [`table`] tallies a table and renders its nodes; [`projection`] says
//!   what the table of a tree is like; [`validate`] tells whether a table
//!   made by hand is like that.
//! - [`fs`] is the engine for reading and writing; [`fuschia`] one for
//!   reading only, over a tree that stays where it was built, with kitty
//!   texts of its own; [`starcon`] the smallest one, with a single file. [`refs`] finds the files of a
//!   tree by inode.
//! - [`xml`], [`xml_tree`] and [`ingest`] build a tree from a document of
//!   markup; [`ingest_laws`] says what inodes it gets.
//! - [`laws`] states what holds of the engines over any table.

pub mod attr;
pub mod content;
pub mod entity;
pub mod error;
pub mod fs;
pub mod fuschia;
pub mod ingest;
pub mod ingest_laws;
pub mod laws;
pub mod projection;
pub mod refs;
pub mod starcon;
pub mod table;
pub mod tree;
pub mod validate;
pub mod xml;
pub mod xml_tree;
