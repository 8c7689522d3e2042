//! What the kernel's files say of a disk.
use super::plan;
use super::policy;
use crate::text;
use crate::text::{chars_of, parse_up_to, trimmed};
use crate::utils::SECTOR;
use vstd::prelude::*;
use vstd::string::*;

verus! {

/// The number that a file holds.
pub open spec fn number_of(content: Option<Seq<char>>) -> Option<u64> {
    match content {
        Some(c) => match text::parse_number(text::trim(c), u64::MAX as nat) {
            Some(n) => Some(n as u64),
            None => None,
        },
        None => None,
    }
}

/// The number that a file holds, where it could be read.
pub fn read_size(content: Option<&str>) -> (r: Option<u64>)
    ensures
        r == number_of(policy::str_text(content)),
{
    match content {
        Some(c) => parse_up_to(&trimmed(&chars_of(c)), u64::MAX),
        None => None,
    }
}

/// The bytes of a block, unless the kernel names no sensible number.
pub open spec fn block_bytes(content: Option<Seq<char>>) -> u64 {
    match number_of(content) {
        Some(n) => if n >= SECTOR && n % SECTOR == 0 {
            n
        } else {
            SECTOR
        },
        None => SECTOR,
    }
}

/// The bytes of a block, which partition tables count in.
pub fn read_lba_size(content: Option<&str>) -> (r: u64)
    ensures
        r == block_bytes(policy::str_text(content)),
        r > 0,
{
    match read_size(content) {
        Some(n) => if n >= SECTOR && n % SECTOR == 0 {
            n
        } else {
            SECTOR
        },
        None => SECTOR,
    }
}

/// The sectors of a disk and the bytes of its blocks, by its `size` and its
/// `logical_block_size`.
pub fn disk_geometry(size: Option<&str>, block: Option<&str>) -> (r: Option<(u64, u64)>)
    ensures
        r == (match number_of(policy::str_text(size)) {
            Some(n) => Some((n, block_bytes(policy::str_text(block)))),
            None => None,
        }),
        r matches Some(g) ==> g.1 > 0,
{
    match read_size(size) {
        Some(n) => Some((n, read_lba_size(block))),
        None => None,
    }
}

/// How many sectors a partition may fall short of what is free: `sfdisk` aligns
/// to 1 MiB or, where that is more, to what the disk likes best.
pub open spec fn tolerance_of(content: Option<Seq<char>>) -> u64 {
    let optimal = match number_of(content) {
        Some(n) => n,
        None => 0,
    };
    if optimal > 0x10_0000 {
        optimal / SECTOR
    } else {
        0x10_0000u64 / SECTOR
    }
}

/// How many sectors a partition may fall short of what is free, by the disk's
/// `optimal_io_size`.
pub fn align_tolerance(content: Option<&str>) -> (r: u64)
    ensures
        r == tolerance_of(policy::str_text(content)),
{
    match read_size(content) {
        Some(n) => if n > 0x10_0000 {
            n / SECTOR
        } else {
            0x10_0000 / SECTOR
        },
        None => 0x10_0000 / SECTOR,
    }
}

/// The file with the size of a partition.
pub fn part_size_path(disk_name: &str, num: u32) -> (r: String)
    ensures
        r@ == "/sys/block/"@ + disk_name@ + "/"@ + plan::part_name(disk_name@, num) + "/size"@,
{
    let mut s = "/sys/block/".to_owned();
    s.append(disk_name);
    s.append("/");
    s.append(plan::part_dev_name(disk_name, num).as_str());
    s.append("/size");
    s
}

/// A block has as many bytes as the kernel says, where that is a number of whole
/// sectors and not zero, and otherwise as many as a sector.
pub proof fn law_blocks_are_whole_sectors(content: Seq<char>, n: nat)
    requires
        text::parse_number(text::trim(content), u64::MAX as nat) == Some(n),
    ensures
        n > 0 && n % 512 == 0 ==> block_bytes(Some(content)) == n,
        n == 0 || n % 512 != 0 ==> block_bytes(Some(content)) == 512,
        block_bytes(None) == 512,
{
}

/// The tolerance is the larger of 1 MiB and what the disk likes best, in whole
/// sectors.
pub proof fn law_tolerance_is_one_mebibyte_or_more(content: Seq<char>, n: nat)
    requires
        text::parse_number(text::trim(content), u64::MAX as nat) == Some(n),
    ensures
        n <= 1024 * 1024 ==> tolerance_of(Some(content)) == 2048,
        n > 1024 * 1024 ==> tolerance_of(Some(content)) * 512 <= n < (tolerance_of(Some(content))
            + 1) * 512,
        tolerance_of(None) == 2048,
{
}

} // verus!
