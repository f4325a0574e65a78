//! GPT parsing, validation and repair planning.
//!
//! The logic that decides what to overwrite on a disk, with no firmware in
//! it: everything here runs identically on a handheld that will not boot and
//! in a test on a desktop.
//!
//! The intended flow is:
//!
//! 1. [`repair::analyze`] reads both tables and returns a [`repair::Verdict`].
//! 2. [`repair::plan`] turns a repairable verdict into an ordered
//!    [`repair::RepairPlan`].
//! 3. The caller shows the plan to a human and only then calls
//!    [`repair::apply`].

pub mod backup;
pub mod bootcfg;
pub mod bootdev;
pub mod bootflow;
pub mod bootopt;
pub mod bootsaved;
pub mod bootview;
pub mod bytes;
pub mod consent;
pub mod console;
pub mod crc;
pub mod diag;
pub mod disk;
pub mod disks;
pub mod display;
pub mod drive;
pub mod entry;
pub mod espscan;
pub mod flows;
pub mod fwcrc;
pub mod gfx;
pub mod guid;
pub mod header;
pub mod image;
pub mod layout;
pub mod mbr;
pub mod memdisk;
pub mod menus;
pub mod meta;
pub mod names;
pub mod nvram;
pub mod order;
pub mod origin;
pub mod overview;
pub mod pages;
pub mod paths;
pub mod plain;
pub mod prevent;
pub mod probe;
pub mod repair;
pub mod report;
pub mod rescue;
pub mod saved;
pub mod secureboot;
pub mod smbios;
pub mod style;
pub mod text;
pub mod ui;
pub mod utf16;
pub mod version;
pub mod volumes;

pub use crc::{Crc32, SoftCrc32};
pub use disk::{BlockDevice, IoError};
pub use entry::PartitionEntry;
pub use guid::Guid;
pub use header::{Defect, GptHeader};
pub use repair::{analyze, apply, plan, Analysis, RepairPlan, Step, TableView, Verdict};
