//! Growing a freshly written image: read the policy, look at the disk without
//! changing it, let `sfdisk` change the partition table, and let the tools of
//! the filesystem take up the new space.

pub mod candidates;
pub mod device;
pub mod fs;
pub mod guarantees;
pub mod outcome;
pub mod plan;
pub mod policy;
pub mod render;
pub mod run;
pub mod success;
pub mod sysfs;
pub mod table;
pub mod trouble;

pub use device::{Image, ReadSeek};
pub use fs::{read_swap_info, sniff_fs, FsKind, SwapInfo};
pub use outcome::{
    read_result, read_status_line, GrowOutcome, Status, LOG_FILE, RESULT_FILE, STATUS_FILE,
};
pub use plan::{analyze_with, part_dev_name, GrowAction, GrowPlan, SurgeryPlan};
pub use policy::{load_policy, load_policy_from, quick_enabled, GrowPolicy, PartSpec};
pub use run::GrowRun;
pub use table::{parse_table, Label, PartEntry, PartTable};
