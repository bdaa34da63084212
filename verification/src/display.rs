//! The boot-time framebuffer, as the kernel records it for mapping into
//! user processes.

use vstd::prelude::*;

verus! {

/// Kernel representation of the boot-time framebuffer.
#[derive(Clone, Copy, Debug, PartialEq, Eq, Structural)]
pub struct KernelFramebufferInfo {
    /// Physical base address of the framebuffer.
    pub phys_base: u64,
    /// Total size in bytes (stride × height).
    pub size_bytes: u64,
    pub width: u64,
    pub height: u64,
    /// Row stride in bytes.
    pub stride: u64,
    /// Bits per pixel.
    pub bpp: u16,
    pub red_mask_size: u8,
    pub red_mask_shift: u8,
    pub green_mask_size: u8,
    pub green_mask_shift: u8,
    pub blue_mask_size: u8,
    pub blue_mask_shift: u8,
}

/// The pixel format of a framebuffer: bits per pixel and the size and
/// shift of each colour mask.
#[derive(Clone, Copy, Debug, PartialEq, Eq, Structural)]
pub struct PixelFormat {
    pub bpp: u16,
    pub red_size: u8,
    pub red_shift: u8,
    pub green_size: u8,
    pub green_shift: u8,
    pub blue_size: u8,
    pub blue_shift: u8,
}

impl KernelFramebufferInfo {
    /// The record for a framebuffer that the bootloader placed at
    /// `virtual_base` in the higher-half direct map at `hhdm_offset`: the
    /// physical base is the difference (wrapping), the size stride × height.
    pub fn from_boot(virtual_base: u64, width: u64, height: u64, stride: u64, format: PixelFormat, hhdm_offset: u64) -> (f: Self)
        requires
            stride * height <= u64::MAX,
        ensures
            f == (KernelFramebufferInfo {
                phys_base: virtual_base.wrapping_sub(hhdm_offset),
                size_bytes: (stride * height) as u64,
                width,
                height,
                stride,
                bpp: format.bpp,
                red_mask_size: format.red_size,
                red_mask_shift: format.red_shift,
                green_mask_size: format.green_size,
                green_mask_shift: format.green_shift,
                blue_mask_size: format.blue_size,
                blue_mask_shift: format.blue_shift,
            }),
    {
        KernelFramebufferInfo {
            phys_base: virtual_base.wrapping_sub(hhdm_offset),
            size_bytes: stride * height,
            width,
            height,
            stride,
            bpp: format.bpp,
            red_mask_size: format.red_size,
            red_mask_shift: format.red_shift,
            green_mask_size: format.green_size,
            green_mask_shift: format.green_shift,
            blue_mask_size: format.blue_size,
            blue_mask_shift: format.blue_shift,
        }
    }
}

/// The recorded framebuffer, once the boot code has stored it.
pub struct FramebufferRecord {
    info: Option<KernelFramebufferInfo>,
}

impl FramebufferRecord {
    /// What is recorded.
    pub closed spec fn spec_info(&self) -> Option<KernelFramebufferInfo> {
        self.info
    }

    /// Nothing recorded yet.
    pub fn new() -> (r: Self)
        ensures
            r.spec_info() is None,
    {
        FramebufferRecord { info: None }
    }

    /// Record the framebuffer.
    pub fn store(&mut self, info: KernelFramebufferInfo)
        ensures
            final(self).spec_info() == Some(info),
    {
        self.info = Some(info);
    }

    /// The recorded framebuffer, or `None` before `store`.
    pub fn get(&self) -> (r: Option<KernelFramebufferInfo>)
        ensures
            r == self.spec_info(),
    {
        self.info
    }
}

} // verus!
