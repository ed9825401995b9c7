//! The memory of a session: what was said, what is known, what is pinned, what depends on what.

pub mod anchor;
pub mod dependency;
pub mod episodic;
pub mod fabric;
pub mod semantic;
pub mod symbolic;
