//! An easy file system on block devices, with the kernel pieces around it:
//! task control blocks, the logger's level handling and the decisions of
//! the first user programs.

pub mod block_dev;
pub mod block_cache;
pub mod bitmap;
pub mod layout;
pub mod efs;
pub mod task;
pub mod logging;
pub mod user;
