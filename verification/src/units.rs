//! The unit in which a size is shown.

use crate::text::{decimal, decimal_text};
use vstd::prelude::*;
use vstd::string::StringExecFns;

verus! {

pub const KB: u64 = 1024;

pub const MB: u64 = 1_048_576;

pub const GB: u64 = 1_073_741_824;

pub const TB: u64 = 1_099_511_627_776;

/// A unit of size.
#[derive(Clone, Copy, Debug, PartialEq, Eq, Structural)]
pub enum SizeUnit {
    Bytes,
    Kilobytes,
    Megabytes,
    Gigabytes,
    Terabytes,
}

impl SizeUnit {
    /// The largest unit that `size` reaches.
    pub open spec fn fitting(size: u64) -> SizeUnit {
        if size >= TB {
            SizeUnit::Terabytes
        } else if size >= GB {
            SizeUnit::Gigabytes
        } else if size >= MB {
            SizeUnit::Megabytes
        } else if size >= KB {
            SizeUnit::Kilobytes
        } else {
            SizeUnit::Bytes
        }
    }

    /// The number of bytes in one unit.
    pub open spec fn byte_count(self) -> u64 {
        match self {
            SizeUnit::Bytes => 1,
            SizeUnit::Kilobytes => KB,
            SizeUnit::Megabytes => MB,
            SizeUnit::Gigabytes => GB,
            SizeUnit::Terabytes => TB,
        }
    }

    /// The letters that name the unit.
    pub open spec fn label_text(self) -> Seq<char> {
        match self {
            SizeUnit::Bytes => "B"@,
            SizeUnit::Kilobytes => "KB"@,
            SizeUnit::Megabytes => "MB"@,
            SizeUnit::Gigabytes => "GB"@,
            SizeUnit::Terabytes => "TB"@,
        }
    }

    /// The unit in which `size` is shown: the largest that it reaches.
    pub fn of(size: u64) -> (unit: SizeUnit)
        ensures
            unit == SizeUnit::fitting(size),
            unit.byte_count() <= size || unit == SizeUnit::Bytes,
    {
        if size >= TB {
            SizeUnit::Terabytes
        } else if size >= GB {
            SizeUnit::Gigabytes
        } else if size >= MB {
            SizeUnit::Megabytes
        } else if size >= KB {
            SizeUnit::Kilobytes
        } else {
            SizeUnit::Bytes
        }
    }

    pub fn bytes(&self) -> (count: u64)
        ensures
            count == self.byte_count(),
            count > 0,
    {
        match self {
            SizeUnit::Bytes => 1,
            SizeUnit::Kilobytes => KB,
            SizeUnit::Megabytes => MB,
            SizeUnit::Gigabytes => GB,
            SizeUnit::Terabytes => TB,
        }
    }

    pub fn label(&self) -> (label: &'static str)
        ensures
            label@ == self.label_text(),
    {
        match self {
            SizeUnit::Bytes => "B",
            SizeUnit::Kilobytes => "KB",
            SizeUnit::Megabytes => "MB",
            SizeUnit::Gigabytes => "GB",
            SizeUnit::Terabytes => "TB",
        }
    }
}

/// A size below one kilobyte as it is shown: the number of bytes and the
/// unit. Larger sizes are shown as a fraction of their unit and are not
/// written here.
pub fn format_bytes(size: u64) -> (shown: Option<String>)
    ensures
        match shown {
            Some(text) => size < KB && text@ == decimal(size as nat) + " B"@,
            None => size >= KB,
        },
{
    if size >= KB {
        None
    } else {
        let mut text = decimal_text(size);
        text.append(" B");
        Some(text)
    }
}

} // verus!
