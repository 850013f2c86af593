pub mod clip;
pub mod corpus;
pub mod media;
pub mod options;
pub mod subtitle;
pub mod text;
pub mod time;
pub mod timeline;
