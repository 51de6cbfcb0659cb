//! Tool-version resolution and installation orchestration: the request model,
//! idiomatic-file aggregation, archive extraction decisions, filesystem helpers
//! and the install guard, each stated and proved with Verus.
pub mod archive;
pub mod dotnet;
pub mod fsutil;
pub mod idiomatic;
pub mod install;
pub mod path;
pub mod request;
pub mod version;
