//! Verified core of a tracker that mirrors the open-source Minecraft client
//! releases into a git repository: it chooses which published versions to
//! process, builds the decompiler invocation, and drives the git steps that
//! fetch, commit, tag and push each decompiled version.
mod text;
pub mod arguments;
pub mod git;
pub mod java_decompiler;
pub mod piston_meta;
pub mod tracker;
