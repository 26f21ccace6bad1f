//! What an installed disk holds, and what of it is checked.

use vstd::prelude::*;
use crate::bytes::le64;
use crate::disk::{
    disk_fault, layout_of, validate_gpt_esp_layout, EspLayout, GptSectors, DATA_IMAGE_SIZE_BYTES,
    IMAGE_SIZE_BYTES,
};
use crate::loader::slots::{load_boot_state, newer, recorded};
use crate::release::{verify_signed_release_with_key, ReleaseError};
use crate::update::{stored_release_fault, stored_release_holds};
use crate::update_format::{BootState, SystemSlot, PUBLIC_KEY_BYTES};

verus! {

/// What is wrong with a slot.
#[derive(Debug, Clone, Copy, PartialEq, Eq, Structural)]
pub enum SlotFault {
    Unreadable,
    Release(ReleaseError),
    OtherRelease { found: u64, expected: u64 },
}

/// What is wrong with the partition that a system is booted from.
#[derive(Debug, Clone, Copy, PartialEq, Eq, Structural)]
pub enum PartitionFault {
    NoLoader,
    EmptyLoader,
    NoBootState,
    Slot { slot: SystemSlot, fault: SlotFault },
}

/// The files of a slot.
#[derive(Debug, Clone, Copy)]
pub struct SlotFiles<'a> {
    pub kernel: Option<&'a [u8]>,
    pub manifest: Option<&'a [u8]>,
}

/// The files of the partition that a system is booted from.
#[derive(Debug, Clone, Copy)]
pub struct BootPartition<'a> {
    pub loader: Option<&'a [u8]>,
    pub first_record: Option<&'a [u8]>,
    pub second_record: Option<&'a [u8]>,
    pub a: SlotFiles<'a>,
    pub b: SlotFiles<'a>,
}

/// What is wrong with a slot that should hold a release with this number, signed with this key.
pub open spec fn slot_has_fault(
    files: SlotFiles,
    expected: u64,
    public_key: Seq<u8>,
    fault: SlotFault,
) -> bool {
    if files.kernel is None || files.manifest is None {
        fault == SlotFault::Unreadable
    } else {
        let kernel = files.kernel.unwrap()@;
        let manifest = files.manifest.unwrap()@;
        match fault {
            SlotFault::Unreadable => false,
            SlotFault::Release(error) => stored_release_fault(kernel, manifest, public_key, error),
            SlotFault::OtherRelease { found, expected: wanted } => {
                &&& stored_release_holds(kernel, manifest, public_key)
                &&& found == le64(manifest, 16)
                &&& wanted == expected
                &&& found != expected
            },
        }
    }
}

/// A slot holds the release with this number, signed with this key.
pub open spec fn slot_holds(files: SlotFiles, expected: u64, public_key: Seq<u8>) -> bool {
    &&& files.kernel is Some && files.manifest is Some
    &&& stored_release_holds(files.kernel.unwrap()@, files.manifest.unwrap()@, public_key)
    &&& le64(files.manifest.unwrap()@, 16) == expected
}

/// Checks that a slot holds a release with this number, signed with this key.
pub fn validate_signed_system_slot(
    files: &SlotFiles,
    expected: u64,
    public_key: &[u8; PUBLIC_KEY_BYTES],
) -> (result: Result<(), SlotFault>)
    ensures
        match result {
            Ok(_) => slot_holds(*files, expected, public_key@),
            Err(fault) => slot_has_fault(*files, expected, public_key@, fault),
        },
{
    let (kernel, manifest) = match (files.kernel, files.manifest) {
        (Some(kernel), Some(manifest)) => (kernel, manifest),
        _ => return Err(SlotFault::Unreadable),
    };
    match verify_signed_release_with_key(kernel, manifest, public_key) {
        Ok(release) => {
            assert(release.read_from(manifest@));
            if release.release_version != expected {
                Err(SlotFault::OtherRelease { found: release.release_version, expected })
            } else {
                Ok(())
            }
        },
        Err(error) => Err(SlotFault::Release(error)),
    }
}

impl<'a> BootPartition<'a> {
    /// The files of a slot.
    pub open spec fn files(self, slot: SystemSlot) -> SlotFiles<'a> {
        match slot {
            SystemSlot::A => self.a,
            SystemSlot::B => self.b,
        }
    }

    /// The boot state that is in effect.
    pub open spec fn state(self) -> Option<BootState> {
        newer(recorded(self.first_record), recorded(self.second_record))
    }

    /// A system can be booted: there is a loader and a boot state, and both slots hold the release that
    /// the boot state names.
    pub open spec fn bootable(self, public_key: Seq<u8>) -> bool {
        &&& self.loader is Some && self.loader.unwrap()@.len() > 0
        &&& self.state() is Some
        &&& forall|slot: SystemSlot|
            slot_holds(
                #[trigger] self.files(slot),
                self.state().unwrap().active_release_version,
                public_key,
            )
    }

    /// What is wrong with the partition. The slot that is in use is looked at first.
    pub open spec fn has_fault(self, public_key: Seq<u8>, fault: PartitionFault) -> bool {
        if self.loader is None {
            fault == PartitionFault::NoLoader
        } else if self.loader.unwrap()@.len() == 0 {
            fault == PartitionFault::EmptyLoader
        } else {
            match self.state() {
                None => fault == PartitionFault::NoBootState,
                Some(state) => match fault {
                    PartitionFault::Slot { slot, fault } => {
                        &&& slot_has_fault(
                            self.files(slot),
                            state.active_release_version,
                            public_key,
                            fault,
                        )
                        &&& slot == state.active_slot || slot_holds(
                            self.files(state.active_slot),
                            state.active_release_version,
                            public_key,
                        )
                    },
                    _ => false,
                },
            }
        }
    }

    fn slot_files(&self, slot: SystemSlot) -> (files: SlotFiles<'a>)
        ensures
            files == self.files(slot),
    {
        match slot {
            SystemSlot::A => self.a,
            SystemSlot::B => self.b,
        }
    }

    /// Checks that a system can be booted from the partition.
    pub fn validate(&self, public_key: &[u8; PUBLIC_KEY_BYTES]) -> (result: Result<
        BootState,
        PartitionFault,
    >)
        ensures
            match result {
                Ok(state) => self.bootable(public_key@) && self.state() == Some(state),
                Err(fault) => self.has_fault(public_key@, fault),
            },
    {
        match self.loader {
            None => return Err(PartitionFault::NoLoader),
            Some(loader) => if loader.len() == 0 {
                return Err(PartitionFault::EmptyLoader);
            },
        }
        let state = match load_boot_state(self.first_record, self.second_record) {
            Ok(state) => state,
            Err(_) => return Err(PartitionFault::NoBootState),
        };
        let expected: u64 = state.active_release_version;
        let active = state.active_slot;
        match validate_signed_system_slot(&self.slot_files(active), expected, public_key) {
            Ok(_) => {},
            Err(fault) => return Err(PartitionFault::Slot { slot: active, fault }),
        }
        let other = active.other();
        match validate_signed_system_slot(&self.slot_files(other), expected, public_key) {
            Ok(_) => {},
            Err(fault) => return Err(PartitionFault::Slot { slot: other, fault }),
        }
        Ok(state)
    }
}

/// A partition that a system can be booted from has no fault.
pub proof fn a_bootable_partition_is_faultless(
    partition: BootPartition,
    public_key: Seq<u8>,
    fault: PartitionFault,
)
    requires
        partition.bootable(public_key),
    ensures
        !partition.has_fault(public_key, fault),
{
    if let PartitionFault::Slot { slot, fault } = fault {
        let files = partition.files(slot);
        assert(slot_holds(
            files,
            partition.state().unwrap().active_release_version,
            public_key,
        ));
    }
}

/// How the partitions of an installed disk are laid out.
#[derive(Debug, Clone, Copy, PartialEq, Eq, Structural)]
pub enum InstalledLayout {
    WholeDiskFat,
    GptEsp(EspLayout),
}

impl InstalledLayout {
    pub fn as_str(self) -> (name: &'static str)
        ensures
            name@ == match self {
                InstalledLayout::WholeDiskFat => "whole-disk-fat"@,
                InstalledLayout::GptEsp(_) => "gpt-esp"@,
            },
    {
        match self {
            InstalledLayout::WholeDiskFat => "whole-disk-fat",
            InstalledLayout::GptEsp(_) => "gpt-esp",
        }
    }
}

/// How an installed disk is laid out, by its sectors where they could be read: what does not have the
/// partition is one file system.
pub fn detect_installed_layout(sectors: Option<&GptSectors>) -> (layout: InstalledLayout)
    requires
        sectors is Some ==> 512 <= sectors.unwrap().mbr@.len(),
    ensures
        layout == if sectors is Some && disk_fault(*sectors.unwrap()) is None {
            InstalledLayout::GptEsp(layout_of(IMAGE_SIZE_BYTES).unwrap())
        } else {
            InstalledLayout::WholeDiskFat
        },
{
    match sectors {
        Some(sectors) => match validate_gpt_esp_layout(sectors) {
            Ok(esp) => InstalledLayout::GptEsp(esp),
            Err(_) => InstalledLayout::WholeDiskFat,
        },
        None => InstalledLayout::WholeDiskFat,
    }
}

/// Whether the disk that data is kept on has to be made: one that is there has to have its size, and
/// is never given another.
pub fn check_data_image(present: Option<u64>) -> (make: Result<bool, u64>)
    ensures
        make == match present {
            None => Ok::<bool, u64>(true),
            Some(size) => if size == DATA_IMAGE_SIZE_BYTES {
                Ok(false)
            } else {
                Err(size)
            },
        },
{
    match present {
        None => Ok(true),
        Some(size) => if size == DATA_IMAGE_SIZE_BYTES {
            Ok(false)
        } else {
            Err(size)
        },
    }
}

} // verus!
