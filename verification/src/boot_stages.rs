//! Boot stage management, under its older path.

pub use crate::boot::stages::{
    advance_stage, boot_config, current_stage, enter_emergency_mode, init, initramfs_stage,
    is_mounted, mark_mounted, mount_real_root, parse_boot_config, pivot_to_real_root,
    start_real_root_init, BootConfig, BootStage,
};
