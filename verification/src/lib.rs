//! An in-process Mach-O image loader for arm64 Darwin hosts, split into a
//! verified planning core and an unverified syscall shell.
//!
//! This crate is the verified core: it parses a Mach-O image from raw bytes,
//! sizes the virtual-memory window, plans the segment copies, the dynamic
//! library openings, the Global Offset Table rebinding and the final page
//! protections, and decides what every kernel or dynamic-linker outcome
//! means.  The unverified shell performs the actual Mach VM calls,
//! `dlopen`/`dlsym`, and the one-way jump into the loaded program.

use vstd::prelude::*;

pub mod linker;
pub mod macho;
pub mod room;
pub mod utilities;
pub mod vm;

pub use utilities::read_ptr;
pub use utilities::segment_name_eq;
pub use utilities::strip_tag;

verus! {

/// Everything that can go wrong before control transfers to the guest.
///
/// The kernel return code is carried raw in the `Vm*` variants; nothing
/// translates it.
#[derive(Debug, Clone, Copy, PartialEq, Eq, Structural)]
pub enum LoadError {
    /// The image pointer was null.
    NullImage,
    /// The image length was zero.
    EmptyImage,
    /// The image length exceeded the hard cap of 100,000,000 bytes.
    ImageTooLarge,
    /// The bytes were rejected by the Mach-O parser.
    ParseFailed,
    /// A fat container held no arm64 slice.
    NoSuitableArch,
    /// A single Mach-O that is not 64-bit.
    Not64,
    /// The kernel refused a VM allocation.
    VmAllocFailed(i32),
    /// The kernel refused a VM write.
    VmWriteFailed(i32),
    /// The kernel refused a VM protection change.
    VmProtectFailed(i32),
    /// The kernel refused a VM region query.
    VmQueryFailed(i32),
    /// A required dynamic library could not be opened.
    DlopenFailed,
    /// An undefined symbol did not resolve.
    DlsymFailed,
    /// A `__got`/`__auth_got` section has an unsupported type.
    BadGotSection,
    /// A library ordinal exceeds the dylib table size.
    SymbolOrdinalOutOfRange,
    /// The post-seal protection readback disagrees with `initprot`.
    ProtectionMismatch,
    /// The entry-point region lacks read+execute after sealing.
    EntryNotExecutable,
}

/// Hard cap on the byte length of an accepted image.
pub const IMAGE_SIZE_LIMIT: usize = 100_000_000;

/// Validates the size of an incoming image: empty images and images over
/// the hard cap are rejected before any parse is attempted.
pub fn check_image_len(len: usize) -> (r: Result<(), LoadError>)
    ensures
        len == 0 ==> r == Result::<(), LoadError>::Err(LoadError::EmptyImage),
        len > IMAGE_SIZE_LIMIT ==> r == Result::<(), LoadError>::Err(LoadError::ImageTooLarge),
        0 < len <= IMAGE_SIZE_LIMIT ==> r == Result::<(), LoadError>::Ok(()),
{
    if len == 0 {
        Err(LoadError::EmptyImage)
    } else if len > IMAGE_SIZE_LIMIT {
        Err(LoadError::ImageTooLarge)
    } else {
        Ok(())
    }
}

/// Extracts the 1-based library ordinal of an undefined symbol from its
/// `n_desc` field: bits 8..15.
pub fn get_library_ordinal(n_desc: u32) -> (r: u8)
    ensures
        r == (n_desc >> 8) & 0xff,
{
    assert((n_desc >> 8) & 0xff < 0x100) by (bit_vector);
    ((n_desc >> 8) & 0xff) as u8
}

impl LoadError {
    /// The negative code this error reports through the C entry point.
    pub open spec fn spec_code(self) -> i32 {
        match self {
            LoadError::NullImage => -1i32,
            LoadError::EmptyImage => -2i32,
            LoadError::ImageTooLarge => -3i32,
            LoadError::ParseFailed => -4i32,
            LoadError::NoSuitableArch => -5i32,
            LoadError::Not64 => -6i32,
            LoadError::VmAllocFailed(_) => -7i32,
            LoadError::VmWriteFailed(_) => -8i32,
            LoadError::VmProtectFailed(_) => -9i32,
            LoadError::VmQueryFailed(_) => -10i32,
            LoadError::DlopenFailed => -11i32,
            LoadError::DlsymFailed => -12i32,
            LoadError::BadGotSection => -13i32,
            LoadError::SymbolOrdinalOutOfRange => -14i32,
            LoadError::ProtectionMismatch => -15i32,
            LoadError::EntryNotExecutable => -16i32,
        }
    }

    /// Maps the error to its negative return code.
    pub fn code(&self) -> (r: i32)
        ensures
            r == self.spec_code(),
            r < 0,
    {
        match self {
            LoadError::NullImage => -1,
            LoadError::EmptyImage => -2,
            LoadError::ImageTooLarge => -3,
            LoadError::ParseFailed => -4,
            LoadError::NoSuitableArch => -5,
            LoadError::Not64 => -6,
            LoadError::VmAllocFailed(_) => -7,
            LoadError::VmWriteFailed(_) => -8,
            LoadError::VmProtectFailed(_) => -9,
            LoadError::VmQueryFailed(_) => -10,
            LoadError::DlopenFailed => -11,
            LoadError::DlsymFailed => -12,
            LoadError::BadGotSection => -13,
            LoadError::SymbolOrdinalOutOfRange => -14,
            LoadError::ProtectionMismatch => -15,
            LoadError::EntryNotExecutable => -16,
        }
    }

    /// A short description of the failed stage, for the shell's
    /// diagnostics on standard error.
    pub fn message(&self) -> &'static str {
        match self {
            LoadError::NullImage => "image pointer is null",
            LoadError::EmptyImage => "image is empty",
            LoadError::ImageTooLarge => "loaded image is too large",
            LoadError::ParseFailed => "malformed mach-o image",
            LoadError::NoSuitableArch => "no usable architecture in fat image",
            LoadError::Not64 => "only 64 bit targets are supported",
            LoadError::VmAllocFailed(_) => "vm allocation failed",
            LoadError::VmWriteFailed(_) => "vm write failed",
            LoadError::VmProtectFailed(_) => "vm protect failed",
            LoadError::VmQueryFailed(_) => "vm region query failed",
            LoadError::DlopenFailed => "failed to load dylib",
            LoadError::DlsymFailed => "failed to resolve symbol",
            LoadError::BadGotSection => "unsupported global offset table section type",
            LoadError::SymbolOrdinalOutOfRange => "library ordinal out of range",
            LoadError::ProtectionMismatch => "protection readback mismatch",
            LoadError::EntryNotExecutable => "entry point is not executable",
        }
    }
}

/// The loaded-image container: one VM window on the loader's own task,
/// the segment table, and the tables the dynamic linker fills in.  The
/// unverified shell owns the window's lifetime; this struct holds what
/// was decided about it.
pub struct Task {
    /// base address of the allocated VM window
    pub memory: u64,

    /// the dylib table: `(path, handle)` in load command order; the
    /// 1-based index is the Mach-O library ordinal
    pub dylibs: Vec<(Vec<u8>, u64)>,

    /// resolved symbols: `(name, address)`
    pub symbols: Vec<(Vec<u8>, u64)>,

    /// size of the VM window
    pub memory_size: u64,

    /// the segments of the loaded image
    pub segments: Vec<macho::Segment>,

    /// the entry point, as an offset within the window; 0 if none
    pub entry_point: u64,
}

impl Task {
    /// Sets up the task state for a parsed image whose window the shell
    /// allocated at `memory`: the window size spans the segments, and
    /// the dylib and symbol tables start empty.  Fails exactly when a
    /// segment's end overflows 64 bits.
    pub fn from_macho(macho: macho::MachO, memory: u64) -> (r: Result<Task, LoadError>)
        ensures
            match r {
                Ok(t) => {
                    &&& t.memory == memory
                    &&& t.memory_size == room::spec_vm_span(macho.segments@)
                    &&& t.segments == macho.segments
                    &&& t.entry_point == macho.entry
                    &&& t.dylibs@.len() == 0
                    &&& t.symbols@.len() == 0
                },
                Err(e) => {
                    &&& e == LoadError::ParseFailed
                    &&& exists|k: int|
                        0 <= k < macho.segments@.len() && (#[trigger] macho.segments@[k].vm_addr)
                            + macho.segments@[k].vm_size > u64::MAX
                },
            },
    {
        let memory_size = match room::vm_span(&macho.segments) {
            Ok(sz) => sz,
            Err(e) => {
                return Err(e);
            },
        };
        Ok(
            Task {
                memory,
                dylibs: Vec::new(),
                symbols: Vec::new(),
                memory_size,
                segments: macho.segments,
                entry_point: macho.entry,
            },
        )
    }
}

} // verus!
