//! Generation and editing of SysML v2 source text.
pub mod template;
pub mod edit;
