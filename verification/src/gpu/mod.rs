//! What graphics processors are told to do.

pub mod cuda;
pub mod cuda_moe;
pub mod cuda_ops;
pub mod kernels;
pub mod launch;
pub mod plan;
pub mod record;
pub mod select;
pub mod vulkan;
pub mod vulkan_moe;
pub mod vulkan_ops;
