//! Finding the VirtIO GPU and keyboard among the MMIO slots of the QEMU
//! `virt` machine: the decisions of the scan, with the register reads and
//! the transports left to the caller.
use vstd::prelude::*;

verus! {

/// Address of the first VirtIO MMIO slot.
pub const MMIO_BASE: usize = 0x1000_1000;

/// Distance between two slots.
pub const MMIO_STEP: usize = 0x1000;

/// Number of slots probed.
pub const MMIO_COUNT: usize = 8;

/// Size of a slot's register window.
pub const MMIO_SIZE: usize = 0x1000;

/// The magic value ("virt") of a VirtIO MMIO header.
pub const VIRTIO_MAGIC: u32 = 0x7472_6976;

/// VirtIO device id of a GPU.
pub const DEVICE_ID_GPU: u32 = 16;

/// VirtIO device id of an input device.
pub const DEVICE_ID_INPUT: u32 = 18;

/// Why the framebuffer console could not be brought up.
#[derive(Clone, Copy, PartialEq, Eq, Structural)]
pub enum GraphicsInitError {
    MissingGpu,
    MissingKeyboard,
    Transport,
    Driver,
}

/// What a transport reports itself to be.
#[derive(Clone, Copy, PartialEq, Eq, Structural)]
pub enum DeviceKind {
    Gpu,
    Input,
    Other,
}

/// What to do with a transport found in a slot.
#[derive(Clone, Copy, PartialEq, Eq, Structural)]
pub enum Claim {
    /// Keep it as the GPU.
    Gpu,
    /// Keep it as the keyboard.
    Input,
    /// Drop it.
    Ignore,
}

/// The base address of slot `index`.
pub fn slot_base(index: usize) -> (base: usize)
    requires
        index < MMIO_COUNT,
    ensures
        base == MMIO_BASE + index * MMIO_STEP,
{
    MMIO_BASE + index * MMIO_STEP
}

/// Whether a slot whose header starts with `magic` holds a VirtIO device.
pub fn is_virtio(magic: u32) -> (b: bool)
    ensures
        b == (magic == VIRTIO_MAGIC),
{
    magic == VIRTIO_MAGIC
}

/// Whether a VirtIO device with id `device_id` is worth opening: a GPU or
/// an input device.
pub fn is_wanted_device(device_id: u32) -> (b: bool)
    ensures
        b == (device_id == DEVICE_ID_GPU || device_id == DEVICE_ID_INPUT),
{
    device_id == DEVICE_ID_GPU || device_id == DEVICE_ID_INPUT
}

/// The devices claimed so far: the slot of the GPU and of the keyboard.
pub struct DeviceScan {
    pub gpu: Option<usize>,
    pub input: Option<usize>,
}

impl DeviceScan {
    /// Nothing found yet.
    pub fn new() -> (scan: Self)
        ensures
            scan.gpu is None,
            scan.input is None,
    {
        DeviceScan { gpu: None, input: None }
    }

    /// Takes the transport of slot `slot`, of kind `kind`, as the GPU or
    /// the keyboard when none was found before; the first of each kind wins.
    pub fn claim(&mut self, slot: usize, kind: DeviceKind) -> (c: Claim)
        ensures
            c == (match kind {
                DeviceKind::Gpu => if old(self).gpu is None {
                    Claim::Gpu
                } else {
                    Claim::Ignore
                },
                DeviceKind::Input => if old(self).input is None {
                    Claim::Input
                } else {
                    Claim::Ignore
                },
                DeviceKind::Other => Claim::Ignore,
            }),
            final(self).gpu == (if c == Claim::Gpu {
                Some(slot)
            } else {
                old(self).gpu
            }),
            final(self).input == (if c == Claim::Input {
                Some(slot)
            } else {
                old(self).input
            }),
    {
        match kind {
            DeviceKind::Gpu => {
                if self.gpu.is_none() {
                    self.gpu = Some(slot);
                    Claim::Gpu
                } else {
                    Claim::Ignore
                }
            },
            DeviceKind::Input => {
                if self.input.is_none() {
                    self.input = Some(slot);
                    Claim::Input
                } else {
                    Claim::Ignore
                }
            },
            DeviceKind::Other => Claim::Ignore,
        }
    }

    /// Both devices were found, so the scan can stop.
    pub fn complete(&self) -> (done: bool)
        ensures
            done == (self.gpu is Some && self.input is Some),
    {
        self.gpu.is_some() && self.input.is_some()
    }

    /// The outcome of the scan: the slots of the GPU and the keyboard, or
    /// the first of the two that is missing.
    pub fn finish(&self) -> (r: Result<(usize, usize), GraphicsInitError>)
        ensures
            r == (match (self.gpu, self.input) {
                (None, _) => Err(GraphicsInitError::MissingGpu),
                (Some(_), None) => Err(GraphicsInitError::MissingKeyboard),
                (Some(g), Some(i)) => Ok((g, i)),
            }),
    {
        match (self.gpu, self.input) {
            (None, _) => Err(GraphicsInitError::MissingGpu),
            (Some(_), None) => Err(GraphicsInitError::MissingKeyboard),
            (Some(g), Some(i)) => Ok((g, i)),
        }
    }
}

} // verus!
