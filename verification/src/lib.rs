//! A catalog of plain-text memos that carry their tags in a metadata line,
//! with tag and path filters and a wrap-around selection cursor to browse
//! the result.

pub mod encoding;
pub mod interface;
pub mod memo;
pub mod search;
pub mod selection;
pub mod text;
