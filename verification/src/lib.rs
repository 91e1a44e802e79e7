//! A small site served to terminals.
//!
//! The site's projects and blog posts are rendered as plain text and laid
//! out as files of a read-only file system. A visitor who connects gets a
//! session: a shell with an editable command line and a history, the
//! commands `ls`, `cd`, `cat`, `vi`, `msg`, `help` and `exit`, and a pager
//! that scrolls through a file in a window of the terminal's size.
//!
//! Everything here computes on bytes and plain values. What reads
//! sockets, files or a database is left to the program that uses the
//! library: it hands over what arrived and sends what is returned.
pub mod apps;
pub mod blogpost;
pub mod contact;
pub mod content;
pub mod footnotes;
pub mod markup;
pub mod pager;
pub mod project;
pub mod server;
pub mod session;
pub mod site;
pub mod terminal;
pub mod text;
