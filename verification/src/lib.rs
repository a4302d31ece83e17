//! Verified core of a Second Life / OpenSim viewer: start locations and
//! login names, capability URL policy, region-continuity and recovery
//! policy, the live-session configuration and start-up plan, login
//! outcomes, panel shortcuts and teleport requests, the live-session
//! snapshot and world view, binary LLSD and Second Life mesh assets, the
//! geometry and fixture texture caches, texture decoding, sculpt grids, and
//! the diagnostics text: the first simulator's start-up gates and
//! forensics, and the RegionObjects summary.
pub mod asset;
pub mod capability;
pub mod continuity;
pub mod diagnostics;
pub mod fetch;
pub mod legacy_login;
pub mod live_config;
pub mod live_worker;
pub mod llsd;
pub mod login_outcome;
pub mod mesh_cache;
pub mod sculpt;
pub mod session_control;
pub mod social;
pub mod start_location;
pub mod sl_mesh;
pub mod startup;
pub mod startup_gates;
pub mod network_debug;
pub mod numtext;
pub mod object_feed;
pub mod profile;
pub mod readiness;
pub mod region_objects;
pub mod text;
pub mod texture_cache;
pub mod texture_decode;
pub mod world;
pub mod world_avatars;
