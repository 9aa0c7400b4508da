//! The Mach-O image model and its parser.
//!
//! A 64-bit Mach-O image starts with a 32-byte header followed by `ncmds`
//! load commands.  The parser walks the commands and collects the segment
//! descriptors (with their sections), the dylib load commands, the symbol
//! table named by the first `LC_SYMTAB`, and the entry offset from the
//! first `LC_MAIN`.  Every field equation in the contracts is stated
//! directly over the image bytes, so the contracts are the format.

use vstd::prelude::*;

use crate::LoadError;
use crate::utilities::be_u32_at;
use crate::utilities::le_u16_at;
use crate::utilities::le_u32_at;
use crate::utilities::le_u64_at;
use crate::utilities::read_bytes;
use crate::utilities::read_be_u32;
use crate::utilities::read_cstr;
use crate::utilities::read_le_u16;
use crate::utilities::read_le_u32;
use crate::utilities::read_le_u64;
use crate::utilities::spec_cstr_at;

verus! {

/// Magic of a little-endian 64-bit Mach-O.
pub const MH_MAGIC_64: u32 = 0xfeedfacf;

/// Magic of a little-endian 32-bit Mach-O.
pub const MH_MAGIC: u32 = 0xfeedface;

/// Magic of a fat container, as read big-endian.
pub const FAT_MAGIC: u32 = 0xcafebabe;

/// CPU type of a 64-bit arm slice.
pub const CPU_TYPE_ARM64: u32 = 0x0100000c;

/// Load command: 64-bit segment.
pub const LC_SEGMENT_64: u32 = 0x19;

/// Load command: symbol table.
pub const LC_SYMTAB: u32 = 0x2;

/// Load command: main entry point.
pub const LC_MAIN: u32 = 0x80000028;

/// Load command: link against a dylib.
pub const LC_LOAD_DYLIB: u32 = 0xc;

/// Load command: link against a dylib that may be absent.
pub const LC_LOAD_WEAK_DYLIB: u32 = 0x80000018;

/// Load command: re-export a dylib.
pub const LC_REEXPORT_DYLIB: u32 = 0x8000001f;

/// Load command: load a dylib lazily.
pub const LC_LAZY_LOAD_DYLIB: u32 = 0x20;

/// Load command: upward link against a dylib.
pub const LC_LOAD_UPWARD_DYLIB: u32 = 0x80000023;

/// The low 8 bits of a section's flags are its type.
pub const SECTION_TYPE: u32 = 0x000000ff;

/// Section type: non-lazy symbol pointers.
pub const S_NON_LAZY_SYMBOL_POINTERS: u32 = 0x6;

/// Section type: lazy symbol pointers.
pub const S_LAZY_SYMBOL_POINTERS: u32 = 0x7;

/// Symbol type mask within `n_type`.
pub const N_TYPE: u8 = 0x0e;

/// Symbol type: undefined.
pub const N_UNDF: u8 = 0x0;

/// One section of a segment: a named sub-range with its own type and
/// attributes.  `name` is the fixed 16-byte zero-padded field.
pub struct Section {
    /// flags (section type in the low 8 bits, attributes above)
    pub flags: u32,

    /// the fixed 16-byte section name
    pub name: Vec<u8>,

    /// file offset of this section's contents
    pub offset: u32,

    /// memory address of this section (an offset within the image's
    /// virtual window)
    pub vm_addr: u64,

    /// memory size of this section
    pub vm_size: u64,

    /// section alignment, as a power of two
    pub align: u32,
}

/// One `LC_SEGMENT_64` load command: a contiguous range of the image
/// mapped with uniform protections.
pub struct Segment {
    /// segment flags
    pub flags: u32,

    /// the fixed 16-byte segment name
    pub name: Vec<u8>,

    /// sections within this segment
    pub sections: Vec<Section>,

    /// file offset of this segment's contents
    pub offset: u64,

    /// memory address of this segment (an offset within the image's
    /// virtual window)
    pub vm_addr: u64,

    /// memory size of this segment
    pub vm_size: u64,

    /// number of bytes to copy from the file
    pub size: u64,

    /// maximum VM protection
    pub maxprot: i32,

    /// initial VM protection
    pub initprot: i32,
}

/// One symbol table entry, with its name resolved from the string table.
pub struct Symbol {
    /// the symbol name, conventionally with a leading underscore
    pub name: Vec<u8>,

    /// symbol type bits
    pub n_type: u8,

    /// section number
    pub n_sect: u8,

    /// descriptor bits; bits 8..15 hold the library ordinal of an
    /// undefined symbol
    pub n_desc: u16,

    /// the symbol's value
    pub n_value: u64,
}

/// One dylib load command: the command type and the NUL-terminated path
/// it names.
pub struct DylibRef {
    /// which of the five dylib load commands this is
    pub cmd: u32,

    /// the dylib path, without the terminating NUL
    pub name: Vec<u8>,
}

/// A parsed 64-bit Mach-O image.
pub struct MachO {
    /// always true: only 64-bit images parse
    pub is_64: bool,

    /// the `LC_SEGMENT_64` commands, in command order
    pub segments: Vec<Segment>,

    /// the dylib load commands, in command order; their 1-based position
    /// is the Mach-O library ordinal
    pub dylibs: Vec<DylibRef>,

    /// the symbol table of the first `LC_SYMTAB`, in table order
    pub symbols: Vec<Symbol>,

    /// the entry offset from the first `LC_MAIN`, 0 if none
    pub entry: u64,
}

/// Whether `cmd` is one of the five dylib load commands.
pub open spec fn spec_is_dylib_cmd(cmd: u32) -> bool {
    ||| cmd == LC_LOAD_DYLIB
    ||| cmd == LC_LOAD_WEAK_DYLIB
    ||| cmd == LC_REEXPORT_DYLIB
    ||| cmd == LC_LAZY_LOAD_DYLIB
    ||| cmd == LC_LOAD_UPWARD_DYLIB
}

/// Whether `cmd` is one of the five dylib load commands.
pub fn is_dylib_cmd(cmd: u32) -> (r: bool)
    ensures
        r == spec_is_dylib_cmd(cmd),
{
    cmd == LC_LOAD_DYLIB || cmd == LC_LOAD_WEAK_DYLIB || cmd == LC_REEXPORT_DYLIB
        || cmd == LC_LAZY_LOAD_DYLIB || cmd == LC_LOAD_UPWARD_DYLIB
}

/// The byte offset of the `k`-th load command: the header is 32 bytes,
/// and each command advances by its own `cmdsize` field.
pub open spec fn cmd_off(s: Seq<u8>, k: nat) -> int
    decreases k,
{
    if k == 0 {
        32
    } else {
        cmd_off(s, (k - 1) as nat) + le_u32_at(s, cmd_off(s, (k - 1) as nat) + 4)
    }
}

/// The command type of the `k`-th load command.
pub open spec fn cmd_at(s: Seq<u8>, k: nat) -> u32 {
    le_u32_at(s, cmd_off(s, k))
}

/// The `cmdsize` field of the `k`-th load command.
pub open spec fn cmdsize_at(s: Seq<u8>, k: nat) -> u32 {
    le_u32_at(s, cmd_off(s, k) + 4)
}

/// Well-formedness of a segment command at `off`: the fixed fields fit in
/// `cmdsize`, and so does the section table.
pub open spec fn seg_cmd_wf(s: Seq<u8>, off: int) -> bool {
    let cmdsize = le_u32_at(s, off + 4);
    let nsects = le_u32_at(s, off + 64);
    &&& cmdsize >= 72
    &&& 72 + 80 * nsects <= cmdsize
}

/// Well-formedness of a dylib command at `off`: the path offset lies
/// inside the command and a NUL terminator follows it there.
pub open spec fn dylib_cmd_wf(s: Seq<u8>, off: int) -> bool {
    let cmdsize = le_u32_at(s, off + 4);
    let name_off = le_u32_at(s, off + 8);
    &&& cmdsize >= 24
    &&& name_off <= cmdsize
    &&& spec_cstr_at(s, off + name_off, off + cmdsize) is Some
}

/// Type-specific well-formedness of the load command at `off`.
pub open spec fn cmd_wf(s: Seq<u8>, off: int) -> bool {
    let cmd = le_u32_at(s, off);
    &&& cmd == LC_SEGMENT_64 ==> seg_cmd_wf(s, off)
    &&& spec_is_dylib_cmd(cmd) ==> dylib_cmd_wf(s, off)
    &&& cmd == LC_SYMTAB ==> le_u32_at(s, off + 4) >= 24
    &&& cmd == LC_MAIN ==> le_u32_at(s, off + 4) >= 24
}

/// Well-formedness of the `k`-th load command: it lies inside the image,
/// its `cmdsize` covers at least the common fields, and its type-specific
/// fields are well-formed.
pub open spec fn cmd_ok(s: Seq<u8>, k: nat) -> bool {
    let off = cmd_off(s, k);
    &&& off + 8 <= s.len()
    &&& cmdsize_at(s, k) >= 8
    &&& off + cmdsize_at(s, k) <= s.len()
    &&& cmd_wf(s, off)
}

/// Well-formedness of the whole command walk.
pub open spec fn cmds_wf(s: Seq<u8>, ncmds: nat) -> bool {
    forall|k: nat| k < ncmds ==> #[trigger] cmd_ok(s, k)
}

/// The number of `LC_SEGMENT_64` commands among the first `k` commands.
pub open spec fn seg_count(s: Seq<u8>, k: nat) -> nat
    decreases k,
{
    if k == 0 {
        0
    } else {
        seg_count(s, (k - 1) as nat) + if cmd_at(s, (k - 1) as nat) == LC_SEGMENT_64 {
            1nat
        } else {
            0nat
        }
    }
}

/// The number of dylib load commands among the first `k` commands.
pub open spec fn dylib_count(s: Seq<u8>, k: nat) -> nat
    decreases k,
{
    if k == 0 {
        0
    } else {
        dylib_count(s, (k - 1) as nat) + if spec_is_dylib_cmd(cmd_at(s, (k - 1) as nat)) {
            1nat
        } else {
            0nat
        }
    }
}

/// The index of the first `LC_SYMTAB` among the first `k` commands.
pub open spec fn first_symtab(s: Seq<u8>, k: nat) -> Option<nat>
    decreases k,
{
    if k == 0 {
        None
    } else {
        match first_symtab(s, (k - 1) as nat) {
            Some(j) => Some(j),
            None => if cmd_at(s, (k - 1) as nat) == LC_SYMTAB {
                Some((k - 1) as nat)
            } else {
                None
            },
        }
    }
}

/// The index of the first `LC_MAIN` among the first `k` commands.
pub open spec fn first_main(s: Seq<u8>, k: nat) -> Option<nat>
    decreases k,
{
    if k == 0 {
        None
    } else {
        match first_main(s, (k - 1) as nat) {
            Some(j) => Some(j),
            None => if cmd_at(s, (k - 1) as nat) == LC_MAIN {
                Some((k - 1) as nat)
            } else {
                None
            },
        }
    }
}

/// The entry offset of the image: the `entryoff` field of the first
/// `LC_MAIN`, or 0 if the image has none.
pub open spec fn spec_entry(s: Seq<u8>, ncmds: nat) -> u64 {
    match first_main(s, ncmds) {
        Some(k) => le_u64_at(s, cmd_off(s, k) + 8),
        None => 0,
    }
}

/// Counts are monotone in the number of commands walked, and a counted
/// command strictly increases them.
pub proof fn lemma_count_mono(s: Seq<u8>, k1: nat, k2: nat)
    requires
        k1 <= k2,
    ensures
        seg_count(s, k1) <= seg_count(s, k2),
        dylib_count(s, k1) <= dylib_count(s, k2),
        cmd_at(s, k1) == LC_SEGMENT_64 && k1 < k2 ==> seg_count(s, k1) < seg_count(s, k2),
        spec_is_dylib_cmd(cmd_at(s, k1)) && k1 < k2 ==> dylib_count(s, k1) < dylib_count(s, k2),
    decreases k2 - k1,
{
    if k1 < k2 {
        lemma_count_mono(s, (k1 + 1) as nat, k2);
    }
}

/// Field-by-field correspondence of a parsed section with the 80-byte
/// `section_64` record at `off`.
pub open spec fn sec_matches(s: Seq<u8>, off: int, sec: Section) -> bool {
    &&& sec.name@ == s.subrange(off, off + 16)
    &&& sec.vm_addr == le_u64_at(s, off + 32)
    &&& sec.vm_size == le_u64_at(s, off + 40)
    &&& sec.offset == le_u32_at(s, off + 48)
    &&& sec.align == le_u32_at(s, off + 52)
    &&& sec.flags == le_u32_at(s, off + 64)
}

/// Field-by-field correspondence of a parsed segment with the
/// `segment_command_64` record at `off`, its sections included.
pub open spec fn seg_matches(s: Seq<u8>, off: int, seg: Segment) -> bool {
    &&& seg.name@ == s.subrange(off + 8, off + 24)
    &&& seg.vm_addr == le_u64_at(s, off + 24)
    &&& seg.vm_size == le_u64_at(s, off + 32)
    &&& seg.offset == le_u64_at(s, off + 40)
    &&& seg.size == le_u64_at(s, off + 48)
    &&& seg.maxprot == le_u32_at(s, off + 56) as i32
    &&& seg.initprot == le_u32_at(s, off + 60) as i32
    &&& seg.flags == le_u32_at(s, off + 68)
    &&& seg.sections@.len() == le_u32_at(s, off + 64)
    &&& forall|j: int|
        0 <= j < seg.sections@.len() ==> sec_matches(s, off + 72 + 80 * j, #[trigger] seg.sections@[j])
}

/// Correspondence of a parsed dylib reference with the dylib command at
/// `off`: same command type, and the path is the NUL-terminated string
/// the command points at.
pub open spec fn dylib_matches(s: Seq<u8>, off: int, d: DylibRef) -> bool {
    let name_off = le_u32_at(s, off + 8);
    let cmdsize = le_u32_at(s, off + 4);
    &&& d.cmd == le_u32_at(s, off)
    &&& Some(d.name@) == spec_cstr_at(s, off + name_off, off + cmdsize)
}

/// The name of the `i`-th symbol of the symbol table command at `off`:
/// the NUL-terminated string that its `n_strx` field points at inside the
/// string table, or `None` if the terminator is missing.
pub open spec fn sym_name_at(s: Seq<u8>, off: int, i: int) -> Option<Seq<u8>> {
    let symoff = le_u32_at(s, off + 8);
    let stroff = le_u32_at(s, off + 16);
    let strsize = le_u32_at(s, off + 20);
    let n_strx = le_u32_at(s, symoff + 16 * i);
    spec_cstr_at(s, stroff + n_strx, stroff + strsize)
}

/// Well-formedness of the symbol table named by the `LC_SYMTAB` command
/// at `off`: both tables lie inside the image and every symbol name is
/// NUL-terminated inside the string table.
pub open spec fn symtab_wf(s: Seq<u8>, off: int) -> bool {
    let symoff = le_u32_at(s, off + 8);
    let nsyms = le_u32_at(s, off + 12);
    let stroff = le_u32_at(s, off + 16);
    let strsize = le_u32_at(s, off + 20);
    &&& symoff + 16 * nsyms <= s.len()
    &&& stroff + strsize <= s.len()
    &&& forall|i: int| 0 <= i < nsyms ==> #[trigger] sym_name_at(s, off, i) is Some
}

/// Field-by-field correspondence of a parsed symbol with the `i`-th
/// 16-byte `nlist_64` record of the symbol table command at `off`.
pub open spec fn sym_matches(s: Seq<u8>, off: int, i: int, sym: Symbol) -> bool {
    let e = le_u32_at(s, off + 8) + 16 * i;
    &&& Some(sym.name@) == sym_name_at(s, off, i)
    &&& sym.n_type == s[e + 4]
    &&& sym.n_sect == s[e + 5]
    &&& sym.n_desc == le_u16_at(s, e + 6)
    &&& sym.n_value == le_u64_at(s, e + 8)
}

/// Parses the symbol table named by the `LC_SYMTAB` command at `off`,
/// resolving each entry's name from the string table.  Fails exactly when
/// a table runs outside the image or a name lacks its NUL terminator.
#[verifier::rlimit(50)]
fn parse_symtab(image: &[u8], off: usize, cmdsize: u32) -> (r: Result<Vec<Symbol>, LoadError>)
    requires
        cmdsize == le_u32_at(image@, off as int + 4),
        cmdsize >= 24,
        off + cmdsize <= image@.len(),
    ensures
        match r {
            Ok(syms) => {
                &&& symtab_wf(image@, off as int)
                &&& syms@.len() == le_u32_at(image@, off as int + 12)
                &&& forall|i: int|
                    0 <= i < syms@.len() ==> sym_matches(image@, off as int, i, #[trigger] syms@[i])
            },
            Err(e) => !symtab_wf(image@, off as int) && e == LoadError::ParseFailed,
        },
{
    let n = image.len();
    assert(off + cmdsize <= n);
    let symoff = read_le_u32(image, off + 8);
    let nsyms = read_le_u32(image, off + 12);
    let stroff = read_le_u32(image, off + 16);
    let strsize = read_le_u32(image, off + 20);

    if (symoff as u64) + 16 * (nsyms as u64) > n as u64 {
        return Err(LoadError::ParseFailed);
    }
    if (stroff as u64) + (strsize as u64) > n as u64 {
        return Err(LoadError::ParseFailed);
    }

    let mut syms: Vec<Symbol> = Vec::new();
    let mut i: usize = 0;
    while i < nsyms as usize
        invariant
            i <= nsyms,
            n == image@.len(),
            off + cmdsize <= n,
            cmdsize == le_u32_at(image@, off as int + 4),
            cmdsize >= 24,
            symoff == le_u32_at(image@, off as int + 8),
            nsyms == le_u32_at(image@, off as int + 12),
            stroff == le_u32_at(image@, off as int + 16),
            strsize == le_u32_at(image@, off as int + 20),
            symoff + 16 * nsyms <= n,
            stroff + strsize <= n,
            syms@.len() == i,
            forall|i2: int|
                0 <= i2 < i ==> sym_matches(image@, off as int, i2, #[trigger] syms@[i2]),
            forall|i2: int| 0 <= i2 < i ==> #[trigger] sym_name_at(image@, off as int, i2) is Some,
        decreases nsyms - i,
    {
        assert(16 * i + 16 <= 16 * nsyms) by (nonlinear_arith)
            requires i < nsyms;
        let e = symoff as usize + 16 * i;
        let n_strx = read_le_u32(image, e);
        if n_strx > strsize {
            assert(sym_name_at(image@, off as int, i as int) is None);
            return Err(LoadError::ParseFailed);
        }
        let name = match read_cstr(image, stroff as usize + n_strx as usize, stroff as usize
            + strsize as usize) {
            Some(v) => v,
            None => {
                assert(sym_name_at(image@, off as int, i as int) is None);
                return Err(LoadError::ParseFailed);
            },
        };
        let n_type = image[e + 4];
        let n_sect = image[e + 5];
        let n_desc = read_le_u16(image, e + 6);
        let n_value = read_le_u64(image, e + 8);
        let sym = Symbol { name, n_type, n_sect, n_desc, n_value };
        assert(sym_matches(image@, off as int, i as int, sym));
        syms.push(sym);
        i += 1;
    }
    Ok(syms)
}

/// Once a first `LC_SYMTAB` or `LC_MAIN` is found, walking further
/// commands does not change it.
pub proof fn lemma_first_stable(s: Seq<u8>, k1: nat, k2: nat)
    requires
        k1 <= k2,
    ensures
        first_symtab(s, k1) is Some ==> first_symtab(s, k2) == first_symtab(s, k1),
        first_main(s, k1) is Some ==> first_main(s, k2) == first_main(s, k1),
    decreases k2 - k1,
{
    if k1 < k2 {
        lemma_first_stable(s, (k1 + 1) as nat, k2);
    }
}

/// A 64-bit Mach-O image is valid when its magic matches, every load
/// command lies inside the image with well-formed type-specific fields,
/// and the symbol table of the first `LC_SYMTAB`, if any, is well-formed.
pub open spec fn macho64_valid(s: Seq<u8>) -> bool {
    &&& s.len() >= 32
    &&& le_u32_at(s, 0) == MH_MAGIC_64
    &&& cmds_wf(s, le_u32_at(s, 16) as nat)
    &&& match first_symtab(s, le_u32_at(s, 16) as nat) {
        Some(k) => symtab_wf(s, cmd_off(s, k)),
        None => true,
    }
}

/// Correspondence of a parsed image with its bytes: the segments and the
/// dylib references appear in command order, the symbols come from the
/// first `LC_SYMTAB`, and the entry offset from the first `LC_MAIN`.
pub open spec fn macho_matches(s: Seq<u8>, m: MachO) -> bool {
    let ncmds = le_u32_at(s, 16) as nat;
    &&& m.is_64 == true
    &&& m.segments@.len() == seg_count(s, ncmds)
    &&& forall|k: nat|
        k < ncmds && #[trigger] cmd_at(s, k) == LC_SEGMENT_64 ==> seg_matches(
            s,
            cmd_off(s, k),
            m.segments@[seg_count(s, k) as int],
        )
    &&& m.dylibs@.len() == dylib_count(s, ncmds)
    &&& forall|k: nat|
        k < ncmds && spec_is_dylib_cmd(#[trigger] cmd_at(s, k)) ==> dylib_matches(
            s,
            cmd_off(s, k),
            m.dylibs@[dylib_count(s, k) as int],
        )
    &&& match first_symtab(s, ncmds) {
        Some(k) => {
            &&& m.symbols@.len() == le_u32_at(s, cmd_off(s, k) + 12)
            &&& forall|i: int|
                0 <= i < m.symbols@.len() ==> sym_matches(
                    s,
                    cmd_off(s, k),
                    i,
                    #[trigger] m.symbols@[i],
                )
        },
        None => m.symbols@.len() == 0,
    }
    &&& m.entry == spec_entry(s, ncmds)
}

/// Parses a thin 64-bit Mach-O image.  Succeeds exactly on valid images;
/// a 32-bit magic is reported as `Not64`, anything else invalid as
/// `ParseFailed`.
#[verifier::rlimit(100)]
pub fn parse_macho(image: &[u8]) -> (r: Result<MachO, LoadError>)
    ensures
        match r {
            Ok(m) => macho64_valid(image@) && macho_matches(image@, m),
            Err(e) => {
                &&& !macho64_valid(image@)
                &&& if image@.len() >= 4 && le_u32_at(image@, 0) == MH_MAGIC {
                    e == LoadError::Not64
                } else {
                    e == LoadError::ParseFailed
                }
            },
        },
{
    let n = image.len();
    if n < 4 {
        return Err(LoadError::ParseFailed);
    }
    let magic = read_le_u32(image, 0);
    if magic == MH_MAGIC {
        return Err(LoadError::Not64);
    }
    if magic != MH_MAGIC_64 {
        return Err(LoadError::ParseFailed);
    }
    if n < 32 {
        return Err(LoadError::ParseFailed);
    }
    let ncmds = read_le_u32(image, 16);

    let ghost s = image@;
    let mut segments: Vec<Segment> = Vec::new();
    let mut dylibs: Vec<DylibRef> = Vec::new();
    let mut symbols: Vec<Symbol> = Vec::new();
    let mut symtab_seen: bool = false;
    let mut entry_seen: bool = false;
    let mut entry: u64 = 0;
    let mut off: usize = 32;
    let mut k: u32 = 0;

    while k < ncmds
        invariant
            s == image@,
            n == s.len(),
            n >= 32,
            le_u32_at(s, 0) == MH_MAGIC_64,
            ncmds == le_u32_at(s, 16),
            k <= ncmds,
            off as int == cmd_off(s, k as nat),
            off <= n,
            forall|k2: nat| k2 < k ==> #[trigger] cmd_ok(s, k2),
            segments@.len() == seg_count(s, k as nat),
            forall|k2: nat|
                k2 < k && #[trigger] cmd_at(s, k2) == LC_SEGMENT_64 ==> seg_matches(
                    s,
                    cmd_off(s, k2),
                    segments@[seg_count(s, k2) as int],
                ),
            dylibs@.len() == dylib_count(s, k as nat),
            forall|k2: nat|
                k2 < k && spec_is_dylib_cmd(#[trigger] cmd_at(s, k2)) ==> dylib_matches(
                    s,
                    cmd_off(s, k2),
                    dylibs@[dylib_count(s, k2) as int],
                ),
            symtab_seen == (first_symtab(s, k as nat) is Some),
            match first_symtab(s, k as nat) {
                Some(j) => {
                    &&& symtab_wf(s, cmd_off(s, j))
                    &&& symbols@.len() == le_u32_at(s, cmd_off(s, j) + 12)
                    &&& forall|i: int|
                        0 <= i < symbols@.len() ==> sym_matches(
                            s,
                            cmd_off(s, j),
                            i,
                            #[trigger] symbols@[i],
                        )
                },
                None => symbols@.len() == 0,
            },
            entry_seen == (first_main(s, k as nat) is Some),
            entry == spec_entry(s, k as nat),
        decreases ncmds - k,
    {
        if n - off < 8 {
            assert(!cmd_ok(s, k as nat));
            return Err(LoadError::ParseFailed);
        }
        let cmd = read_le_u32(image, off);
        let cmdsize = read_le_u32(image, off + 4);
        if cmdsize < 8 {
            assert(!cmd_ok(s, k as nat));
            return Err(LoadError::ParseFailed);
        }
        if (cmdsize as u64) > (n as u64) - (off as u64) {
            assert(!cmd_ok(s, k as nat));
            return Err(LoadError::ParseFailed);
        }

        if cmd == LC_SEGMENT_64 {
            match parse_segment(image, off, cmdsize) {
                Ok(seg) => {
                    proof {
                        assert forall|k2: nat|
                            k2 < k && #[trigger] cmd_at(s, k2) == LC_SEGMENT_64 implies seg_count(
                            s,
                            k2,
                        ) < seg_count(s, k as nat) by {
                            lemma_count_mono(s, k2, k as nat);
                        }
                    }
                    segments.push(seg);
                },
                Err(e) => {
                    assert(!cmd_ok(s, k as nat));
                    return Err(LoadError::ParseFailed);
                },
            }
        } else if is_dylib_cmd(cmd) {
            match parse_dylib(image, off, cmdsize, cmd) {
                Ok(d) => {
                    proof {
                        assert forall|k2: nat|
                            k2 < k && spec_is_dylib_cmd(#[trigger] cmd_at(s, k2)) implies dylib_count(
                            s,
                            k2,
                        ) < dylib_count(s, k as nat) by {
                            lemma_count_mono(s, k2, k as nat);
                        }
                    }
                    dylibs.push(d);
                },
                Err(e) => {
                    assert(!cmd_ok(s, k as nat));
                    return Err(LoadError::ParseFailed);
                },
            }
        } else if cmd == LC_SYMTAB {
            if cmdsize < 24 {
                assert(!cmd_ok(s, k as nat));
                return Err(LoadError::ParseFailed);
            }
            if !symtab_seen {
                match parse_symtab(image, off, cmdsize) {
                    Ok(v) => {
                        symbols = v;
                        symtab_seen = true;
                    },
                    Err(e) => {
                        proof {
                            assert(first_symtab(s, (k + 1) as nat) == Some(k as nat));
                            lemma_first_stable(s, (k + 1) as nat, ncmds as nat);
                            assert(!macho64_valid(s));
                        }
                        return Err(LoadError::ParseFailed);
                    },
                }
            }
        } else if cmd == LC_MAIN {
            if cmdsize < 24 {
                assert(!cmd_ok(s, k as nat));
                return Err(LoadError::ParseFailed);
            }
            if !entry_seen {
                entry = read_le_u64(image, off + 8);
                entry_seen = true;
            }
        }

        proof {
            assert(cmd_ok(s, k as nat));
            assert(cmd_off(s, (k + 1) as nat) == cmd_off(s, k as nat) + cmdsize);
            assert(seg_count(s, (k + 1) as nat) == seg_count(s, k as nat) + if cmd_at(
                s,
                k as nat,
            ) == LC_SEGMENT_64 {
                1nat
            } else {
                0nat
            });
            assert(dylib_count(s, (k + 1) as nat) == dylib_count(s, k as nat)
                + if spec_is_dylib_cmd(cmd_at(s, k as nat)) {
                1nat
            } else {
                0nat
            });
        }
        off = off + cmdsize as usize;
        k = k + 1;
    }

    let m = MachO { is_64: true, segments, dylibs, symbols, entry };
    assert(macho64_valid(s));
    assert(macho_matches(s, m));
    Ok(m)
}

/// Whether the bytes start with a fat container header.  Fat headers are
/// big-endian.
pub open spec fn is_fat(s: Seq<u8>) -> bool {
    s.len() >= 8 && be_u32_at(s, 0) == FAT_MAGIC
}

/// The number of architecture entries of a fat container.
pub open spec fn fat_narch(s: Seq<u8>) -> u32 {
    be_u32_at(s, 4)
}

/// The CPU type of the `j`-th fat architecture entry.  Entries are 20
/// bytes, starting right after the 8-byte fat header.
pub open spec fn fat_cputype(s: Seq<u8>, j: int) -> u32 {
    be_u32_at(s, 8 + 20 * j)
}

/// The file offset of the `j`-th fat architecture entry's slice.
pub open spec fn fat_offset(s: Seq<u8>, j: int) -> u32 {
    be_u32_at(s, 8 + 20 * j + 8)
}

/// The byte size of the `j`-th fat architecture entry's slice.
pub open spec fn fat_size(s: Seq<u8>, j: int) -> u32 {
    be_u32_at(s, 8 + 20 * j + 12)
}

/// The first fat architecture entry among the first `j` whose CPU type
/// is arm64.
pub open spec fn first_arm64(s: Seq<u8>, j: nat) -> Option<nat>
    decreases j,
{
    if j == 0 {
        None
    } else {
        match first_arm64(s, (j - 1) as nat) {
            Some(i) => Some(i),
            None => if fat_cputype(s, j - 1) == CPU_TYPE_ARM64 {
                Some((j - 1) as nat)
            } else {
                None
            },
        }
    }
}

/// The image the loading pipeline settles on, together with the error it
/// stops with instead: the size gate is applied, a fat container is
/// narrowed to its first arm64 slice and re-entered, and a thin image is
/// taken as it is.  A fat entry whose slice runs outside the container,
/// or does not shrink it, is malformed.
pub open spec fn spec_select(s: Seq<u8>) -> Result<Seq<u8>, LoadError>
    decreases s.len(),
{
    if s.len() == 0 {
        Err(LoadError::EmptyImage)
    } else if s.len() > 100_000_000 {
        Err(LoadError::ImageTooLarge)
    } else if is_fat(s) {
        if 8 + 20 * fat_narch(s) > s.len() {
            Err(LoadError::ParseFailed)
        } else {
            match first_arm64(s, fat_narch(s) as nat) {
                Some(j) => {
                    let off = fat_offset(s, j as int) as int;
                    let sz = fat_size(s, j as int) as int;
                    if off + sz <= s.len() && sz < s.len() {
                        spec_select(s.subrange(off, off + sz))
                    } else {
                        Err(LoadError::ParseFailed)
                    }
                },
                None => Err(LoadError::NoSuitableArch),
            }
        }
    } else {
        Ok(s)
    }
}

/// Narrows a fat container to its first arm64 slice, or reports why it
/// cannot: the whole selection loop of `load_image`, one level at a time.
#[verifier::rlimit(50)]
fn select_arm64<'a>(image: &'a [u8]) -> (r: Result<&'a [u8], LoadError>)
    requires
        is_fat(image@),
        8 + 20 * fat_narch(image@) <= image@.len(),
    ensures
        match r {
            Ok(sub) => {
                &&& first_arm64(image@, fat_narch(image@) as nat) matches Some(j) && sub@
                    == image@.subrange(
                    fat_offset(image@, j as int) as int,
                    fat_offset(image@, j as int) + fat_size(image@, j as int),
                )
                &&& sub@.len() < image@.len()
                &&& first_arm64(image@, fat_narch(image@) as nat) matches Some(j2) ==> fat_offset(
                    image@,
                    j2 as int,
                ) + fat_size(image@, j2 as int) <= image@.len() && fat_size(image@, j2 as int)
                    < image@.len()
            },
            Err(e) => {
                match first_arm64(image@, fat_narch(image@) as nat) {
                    Some(j) => {
                        &&& e == LoadError::ParseFailed
                        &&& !(fat_offset(image@, j as int) + fat_size(image@, j as int)
                            <= image@.len() && fat_size(image@, j as int) < image@.len())
                    },
                    None => e == LoadError::NoSuitableArch,
                }
            },
        },
{
    let n = image.len();
    let narch = read_be_u32(image, 4);
    let mut j: usize = 0;
    while j < narch as usize
        invariant
            n == image@.len(),
            narch == fat_narch(image@),
            8 + 20 * narch <= n,
            j <= narch,
            first_arm64(image@, j as nat) is None,
        decreases narch - j,
    {
        assert(20 * j + 20 <= 20 * narch) by (nonlinear_arith)
            requires j < narch;
        let cputype = read_be_u32(image, 8 + 20 * j);
        if cputype == CPU_TYPE_ARM64 {
            assert(first_arm64(image@, (j + 1) as nat) == Some(j as nat));
            proof {
                lemma_first_arm64_stable(image@, (j + 1) as nat, narch as nat);
            }
            let off = read_be_u32(image, 8 + 20 * j + 8);
            let sz = read_be_u32(image, 8 + 20 * j + 12);
            if (off as u64) + (sz as u64) > n as u64 || (sz as u64) >= n as u64 {
                return Err(LoadError::ParseFailed);
            }
            let sub = &image[off as usize..off as usize + sz as usize];
            return Ok(sub);
        }
        assert(first_arm64(image@, (j + 1) as nat) is None);
        j += 1;
    }
    Err(LoadError::NoSuitableArch)
}

/// Once a first arm64 entry is found, walking further entries does not
/// change it.
proof fn lemma_first_arm64_stable(s: Seq<u8>, j1: nat, j2: nat)
    requires
        j1 <= j2,
    ensures
        first_arm64(s, j1) is Some ==> first_arm64(s, j2) == first_arm64(s, j1),
    decreases j2 - j1,
{
    if j1 < j2 {
        lemma_first_arm64_stable(s, (j1 + 1) as nat, j2);
    }
}

/// Validates the size of an image and narrows a fat container, level by
/// level, to its first arm64 slice: the bytes the rest of the pipeline
/// works on.  Exact against `spec_select`.
pub fn select_slice<'a>(image: &'a [u8]) -> (r: Result<&'a [u8], LoadError>)
    ensures
        match r {
            Ok(sub) => {
                &&& spec_select(image@) == Ok::<Seq<u8>, LoadError>(sub@)
                &&& 0 < sub@.len() <= 100_000_000
                &&& !is_fat(sub@)
            },
            Err(e) => spec_select(image@) == Err::<Seq<u8>, LoadError>(e),
        },
{
    let mut cur: &[u8] = image;
    loop
        invariant
            spec_select(image@) == spec_select(cur@),
        ensures
            spec_select(image@) == spec_select(cur@),
            cur@.len() > 0,
            cur@.len() <= 100_000_000,
            !is_fat(cur@),
        decreases cur@.len(),
    {
        let n = cur.len();
        if n == 0 {
            return Err(LoadError::EmptyImage);
        }
        if n > 100_000_000 {
            return Err(LoadError::ImageTooLarge);
        }
        if n >= 8 {
            let magic = read_be_u32(cur, 0);
            if magic == FAT_MAGIC {
                let narch = read_be_u32(cur, 4);
                if 8 + 20 * (narch as u64) > n as u64 {
                    return Err(LoadError::ParseFailed);
                }
                match select_arm64(cur) {
                    Ok(sub) => {
                        cur = sub;
                    },
                    Err(e) => {
                        return Err(e);
                    },
                }
            } else {
                break;
            }
        } else {
            break;
        }
    }
    assert(spec_select(cur@) == Ok::<Seq<u8>, LoadError>(cur@));
    Ok(cur)
}

/// Validates the size of an image, narrows a fat container to its arm64
/// slice, and parses the selected thin 64-bit Mach-O.  The whole front
/// half of the loading pipeline, exact against `spec_select`.
pub fn load_image(image: &[u8]) -> (r: Result<MachO, LoadError>)
    ensures
        match spec_select(image@) {
            Ok(thin) => match r {
                Ok(m) => macho64_valid(thin) && macho_matches(thin, m),
                Err(e) => {
                    &&& !macho64_valid(thin)
                    &&& if thin.len() >= 4 && le_u32_at(thin, 0) == MH_MAGIC {
                        e == LoadError::Not64
                    } else {
                        e == LoadError::ParseFailed
                    }
                },
            },
            Err(e0) => r == Err::<MachO, LoadError>(e0),
        },
{
    match select_slice(image) {
        Ok(thin) => parse_macho(thin),
        Err(e) => Err(e),
    }
}

/// Parses the 80-byte `section_64` record at `off`.
fn parse_section(image: &[u8], off: usize) -> (r: Section)
    requires
        off + 80 <= image@.len(),
    ensures
        sec_matches(image@, off as int, r),
{
    let n = image.len();
    assert(off + 80 <= n);
    let name = read_bytes(image, off, 16);
    let vm_addr = read_le_u64(image, off + 32);
    let vm_size = read_le_u64(image, off + 40);
    let offset = read_le_u32(image, off + 48);
    let align = read_le_u32(image, off + 52);
    let flags = read_le_u32(image, off + 64);
    Section { flags, name, offset, vm_addr, vm_size, align }
}

/// Parses the `segment_command_64` at `off`, with its section table.
/// Fails exactly when the section table does not fit in `cmdsize`.
fn parse_segment(image: &[u8], off: usize, cmdsize: u32) -> (r: Result<Segment, LoadError>)
    requires
        cmdsize == le_u32_at(image@, off as int + 4),
        cmdsize >= 8,
        off + cmdsize <= image@.len(),
    ensures
        match r {
            Ok(seg) => seg_cmd_wf(image@, off as int) && seg_matches(image@, off as int, seg),
            Err(e) => !seg_cmd_wf(image@, off as int) && e == LoadError::ParseFailed,
        },
{
    let n = image.len();
    assert(off + cmdsize <= n);
    if cmdsize < 72 {
        return Err(LoadError::ParseFailed);
    }
    let nsects = read_le_u32(image, off + 64);
    if (nsects as u64) * 80 > (cmdsize as u64) - 72 {
        return Err(LoadError::ParseFailed);
    }
    let name = read_bytes(image, off + 8, 16);
    let vm_addr = read_le_u64(image, off + 24);
    let vm_size = read_le_u64(image, off + 32);
    let offset = read_le_u64(image, off + 40);
    let size = read_le_u64(image, off + 48);
    let maxprot = #[verifier::truncate] (read_le_u32(image, off + 56) as i32);
    let initprot = #[verifier::truncate] (read_le_u32(image, off + 60) as i32);
    let flags = read_le_u32(image, off + 68);

    let mut sections: Vec<Section> = Vec::new();
    let mut j: usize = 0;
    while j < nsects as usize
        invariant
            j <= nsects,
            72 + 80 * nsects <= cmdsize,
            off + cmdsize <= n == image@.len(),
            sections@.len() == j,
            forall|j2: int|
                0 <= j2 < j ==> sec_matches(
                    image@,
                    off + 72 + 80 * j2,
                    #[trigger] sections@[j2],
                ),
        decreases nsects - j,
    {
        assert(80 * j + 80 <= 80 * nsects) by (nonlinear_arith)
            requires j < nsects;
        let sec = parse_section(image, off + 72 + 80 * j);
        sections.push(sec);
        j += 1;
    }

    Ok(Segment { flags, name, sections, offset, vm_addr, vm_size, size, maxprot, initprot })
}

/// Parses the dylib load command at `off` into the path it names.  Fails
/// exactly when the path offset or its NUL terminator do not fit in the
/// command.
fn parse_dylib(image: &[u8], off: usize, cmdsize: u32, cmd: u32) -> (r: Result<
    DylibRef,
    LoadError,
>)
    requires
        cmd == le_u32_at(image@, off as int),
        cmdsize == le_u32_at(image@, off as int + 4),
        cmdsize >= 8,
        off + cmdsize <= image@.len(),
    ensures
        match r {
            Ok(d) => dylib_cmd_wf(image@, off as int) && dylib_matches(image@, off as int, d),
            Err(e) => !dylib_cmd_wf(image@, off as int) && e == LoadError::ParseFailed,
        },
{
    let n = image.len();
    assert(off + cmdsize <= n);
    if cmdsize < 24 {
        return Err(LoadError::ParseFailed);
    }
    let name_off = read_le_u32(image, off + 8);
    if name_off > cmdsize {
        return Err(LoadError::ParseFailed);
    }
    match read_cstr(image, off + name_off as usize, off + cmdsize as usize) {
        Some(name) => Ok(DylibRef { cmd, name }),
        None => Err(LoadError::ParseFailed),
    }
}

} // verus!
