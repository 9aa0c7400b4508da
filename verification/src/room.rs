//! Sizing the virtual-memory window, planning the segment copies, and
//! planning the dynamic-library openings.
//!
//! The unverified shell allocates the window, performs the copies with
//! kernel writes, and opens the libraries with the host dynamic linker;
//! everything it does is decided here first.

use vstd::prelude::*;

use crate::LoadError;
use crate::macho::DylibRef;
use crate::macho::LC_LAZY_LOAD_DYLIB;
use crate::macho::LC_LOAD_WEAK_DYLIB;
use crate::macho::MachO;
use crate::macho::Segment;
use crate::utilities::name_has_prefix;

verus! {

/// `dlopen` flag: resolve symbols lazily.
pub const RTLD_LAZY: i32 = 0x1;

/// `dlopen` flag: do not load, only find an already-loaded image.
pub const RTLD_NOLOAD: i32 = 0x10;

/// The fixed 16-byte name field of the null-dereference-trap segment.
pub open spec fn pagezero_name() -> Seq<u8> {
    seq![95u8, 95u8, 80u8, 65u8, 71u8, 69u8, 90u8, 69u8, 82u8, 79u8]
}

/// Whether a segment is the `__PAGEZERO` trap segment, which is never
/// mapped, written, or protected.
pub open spec fn is_pagezero(seg: Segment) -> bool {
    name_has_prefix(seg.name@, pagezero_name())
}

/// Builds the `__PAGEZERO` name as bytes.
pub fn pagezero_bytes() -> (r: Vec<u8>)
    ensures
        r@ == pagezero_name(),
{
    let mut v: Vec<u8> = Vec::new();
    v.push(95);
    v.push(95);
    v.push(80);
    v.push(65);
    v.push(71);
    v.push(69);
    v.push(90);
    v.push(69);
    v.push(82);
    v.push(79);
    assert(v@ =~= pagezero_name());
    v
}

/// The lowest virtual address occupied by any of the segments, 0 when
/// there are none.
pub open spec fn min_vmaddr(segs: Seq<Segment>) -> int
    decreases segs.len(),
{
    if segs.len() == 0 {
        0
    } else if segs.len() == 1 {
        segs[0].vm_addr as int
    } else {
        let rest = min_vmaddr(segs.drop_last());
        if segs.last().vm_addr < rest {
            segs.last().vm_addr as int
        } else {
            rest
        }
    }
}

/// The highest virtual address occupied by any of the segments, 0 when
/// there are none.
pub open spec fn max_vmend(segs: Seq<Segment>) -> int
    decreases segs.len(),
{
    if segs.len() == 0 {
        0
    } else {
        let rest = max_vmend(segs.drop_last());
        let end = segs.last().vm_addr + segs.last().vm_size;
        if end > rest {
            end
        } else {
            rest
        }
    }
}

/// The size of the virtual-memory window that spans all segments.
pub open spec fn spec_vm_span(segs: Seq<Segment>) -> int {
    max_vmend(segs) - min_vmaddr(segs)
}

/// The minimum never exceeds the maximum, so the span is never negative.
pub proof fn lemma_span_nonneg(segs: Seq<Segment>)
    ensures
        0 <= spec_vm_span(segs) <= max_vmend(segs),
    decreases segs.len(),
{
    if segs.len() > 0 {
        lemma_span_nonneg(segs.drop_last());
        if segs.len() > 1 {
            assert(min_vmaddr(segs) <= min_vmaddr(segs.drop_last()));
        }
    }
}

/// Computes the size of the VM window: the distance from the lowest
/// segment address to the highest segment end, and 0 for an image
/// without segments.  Fails exactly when some segment's end does not fit
/// in 64 bits.
pub fn vm_span(segments: &Vec<Segment>) -> (r: Result<u64, LoadError>)
    ensures
        match r {
            Ok(sz) => {
                &&& sz == spec_vm_span(segments@)
                &&& segments@.len() == 0 ==> sz == 0
                &&& forall|k: int|
                    0 <= k < segments@.len() ==> (#[trigger] segments@[k].vm_addr)
                        + segments@[k].vm_size <= u64::MAX
            },
            Err(e) => {
                &&& e == LoadError::ParseFailed
                &&& exists|k: int|
                    0 <= k < segments@.len() && (#[trigger] segments@[k].vm_addr)
                        + segments@[k].vm_size > u64::MAX
            },
        },
{
    let n = segments.len();
    let mut min_addr: u64 = 0;
    let mut max_end: u64 = 0;
    let mut k: usize = 0;
    while k < n
        invariant
            k <= n == segments@.len(),
            min_addr == min_vmaddr(segments@.take(k as int)),
            max_end == max_vmend(segments@.take(k as int)),
            forall|k2: int|
                0 <= k2 < k ==> (#[trigger] segments@[k2].vm_addr) + segments@[k2].vm_size
                    <= u64::MAX,
        decreases n - k,
    {
        let seg_addr = segments[k].vm_addr;
        let seg_size = segments[k].vm_size;
        if seg_size > u64::MAX - seg_addr {
            return Err(LoadError::ParseFailed);
        }
        let end = seg_addr + seg_size;
        proof {
            assert(segments@.take(k + 1).drop_last() =~= segments@.take(k as int));
            assert(segments@.take(k + 1).last() == segments@[k as int]);
        }
        if k == 0 {
            min_addr = seg_addr;
            max_end = end;
            proof {
                lemma_span_nonneg(segments@.take(1));
            }
        } else {
            if seg_addr < min_addr {
                min_addr = seg_addr;
            }
            if end > max_end {
                max_end = end;
            }
        }
        k += 1;
    }
    proof {
        assert(segments@.take(n as int) =~= segments@);
        lemma_span_nonneg(segments@);
    }
    Ok(max_end - min_addr)
}

/// One planned kernel write: copy `len` bytes from image offset `src`
/// to window offset `dst`.
pub struct CopyOp {
    /// source offset within the image (the segment's file offset)
    pub src: u64,

    /// destination offset within the VM window (the segment's virtual
    /// address)
    pub dst: u64,

    /// number of bytes to copy (the segment's file size)
    pub len: u64,
}

/// The copy planned for one segment.
pub open spec fn copy_of(seg: Segment) -> CopyOp {
    CopyOp { src: seg.offset, dst: seg.vm_addr, len: seg.size }
}

/// The planned copies, in segment order: one per segment, except
/// `__PAGEZERO`, which is never mapped.
pub open spec fn spec_copy_ops(segs: Seq<Segment>) -> Seq<CopyOp>
    decreases segs.len(),
{
    if segs.len() == 0 {
        Seq::empty()
    } else {
        spec_copy_ops(segs.drop_last()) + if is_pagezero(segs.last()) {
            Seq::empty()
        } else {
            seq![copy_of(segs.last())]
        }
    }
}

/// Plans the segment copies: `filesize` bytes from the segment's file
/// offset to its virtual address, skipping `__PAGEZERO`.
pub fn segment_copy_ops(segments: &Vec<Segment>) -> (r: Vec<CopyOp>)
    ensures
        r@ == spec_copy_ops(segments@),
{
    let pagezero = pagezero_bytes();
    let n = segments.len();
    let mut ops: Vec<CopyOp> = Vec::new();
    let mut k: usize = 0;
    while k < n
        invariant
            k <= n == segments@.len(),
            pagezero@ == pagezero_name(),
            ops@ == spec_copy_ops(segments@.take(k as int)),
        decreases n - k,
    {
        proof {
            assert(segments@.take(k + 1).drop_last() =~= segments@.take(k as int));
            assert(segments@.take(k + 1).last() == segments@[k as int]);
        }
        let seg = &segments[k];
        if !crate::utilities::segment_name_eq(seg.name.as_slice(), pagezero.as_slice()) {
            ops.push(CopyOp { src: seg.offset, dst: seg.vm_addr, len: seg.size });
            assert(ops@ =~= spec_copy_ops(segments@.take(k + 1)));
        } else {
            assert(ops@ =~= spec_copy_ops(segments@.take(k + 1)));
        }
        k += 1;
    }
    proof {
        assert(segments@.take(n as int) =~= segments@);
    }
    ops
}

/// The VM window after one planned copy: bytes inside the destination
/// range take their value from the image, all others keep theirs.
pub open spec fn copy_applied(vm: Seq<u8>, image: Seq<u8>, op: CopyOp) -> Seq<u8> {
    Seq::new(
        vm.len(),
        |i: int|
            if op.dst <= i < op.dst + op.len {
                image[op.src + (i - op.dst)]
            } else {
                vm[i]
            },
    )
}

/// The VM window after all planned copies, applied in order.
pub open spec fn copies_applied(vm: Seq<u8>, image: Seq<u8>, ops: Seq<CopyOp>) -> Seq<u8>
    decreases ops.len(),
{
    if ops.len() == 0 {
        vm
    } else {
        copy_applied(copies_applied(vm, image, ops.drop_last()), image, ops.last())
    }
}

/// Every planned copy reads inside the image and writes inside the
/// window.
pub open spec fn copies_in_bounds(ops: Seq<CopyOp>, vm_len: int, image_len: int) -> bool {
    forall|t: int|
        0 <= t < ops.len() ==> (#[trigger] ops[t]).src + ops[t].len <= image_len && ops[t].dst
            + ops[t].len <= vm_len
}

/// No two planned copies write overlapping ranges of the window.
pub open spec fn copies_disjoint(ops: Seq<CopyOp>) -> bool {
    forall|t1: int, t2: int|
        0 <= t1 < t2 < ops.len() ==> (#[trigger] ops[t1]).dst + ops[t1].len <= (
        #[trigger] ops[t2]).dst || ops[t2].dst + ops[t2].len <= ops[t1].dst
}

/// Byte `b` of the `t`-th planned copy landed: position `src + b` of
/// the image sits at position `dst + b` of the window.
pub open spec fn copy_maps_byte(vm: Seq<u8>, image: Seq<u8>, ops: Seq<CopyOp>, t: int, b: int) -> bool {
    copies_applied(vm, image, ops)[ops[t].dst + b] == image[ops[t].src + b]
}

/// After all copies, every byte of every copied range holds its image
/// byte.  The window keeps its length.
pub proof fn lemma_copies_map_image(vm: Seq<u8>, image: Seq<u8>, ops: Seq<CopyOp>)
    requires
        copies_in_bounds(ops, vm.len() as int, image.len() as int),
        copies_disjoint(ops),
    ensures
        copies_applied(vm, image, ops).len() == vm.len(),
        forall|t: int, b: int|
            0 <= t < ops.len() && 0 <= b < ops[t].len ==> #[trigger] copy_maps_byte(
                vm,
                image,
                ops,
                t,
                b,
            ),
    decreases ops.len(),
{
    if ops.len() > 0 {
        let prefix = ops.drop_last();
        let last = ops.last();
        lemma_copies_map_image(vm, image, prefix);
        let before = copies_applied(vm, image, prefix);
        let after = copies_applied(vm, image, ops);
        assert(after == copy_applied(before, image, last));
        assert forall|t: int, b: int|
            0 <= t < ops.len() && 0 <= b < ops[t].len implies #[trigger] copy_maps_byte(
            vm,
            image,
            ops,
            t,
            b,
        ) by {
            if t == ops.len() - 1 {
                assert(last.dst <= ops[t].dst + b < last.dst + last.len);
                assert(after[ops[t].dst + b] == image[ops[t].src + b]);
            } else {
                assert(copy_maps_byte(vm, image, prefix, t, b));
                assert(ops[t].dst + ops[t].len <= last.dst || last.dst + last.len <= ops[t].dst);
                assert(!(last.dst <= ops[t].dst + b < last.dst + last.len));
                assert(after[ops[t].dst + b] == before[ops[t].dst + b]);
            }
        }
    }
}

/// Every segment other than `__PAGEZERO` has its copy in the plan.
pub proof fn lemma_copy_ops_complete(segs: Seq<Segment>, k: int)
    requires
        0 <= k < segs.len(),
        !is_pagezero(segs[k]),
    ensures
        exists|t: int|
            0 <= t < spec_copy_ops(segs).len() && #[trigger] spec_copy_ops(segs)[t] == copy_of(
                segs[k],
            ),
    decreases segs.len(),
{
    if k == segs.len() - 1 {
        let ops = spec_copy_ops(segs);
        assert(ops[ops.len() - 1] == copy_of(segs[k]));
    } else {
        lemma_copy_ops_complete(segs.drop_last(), k);
        let t = choose|t: int|
            0 <= t < spec_copy_ops(segs.drop_last()).len() && #[trigger] spec_copy_ops(
                segs.drop_last(),
            )[t] == copy_of(segs.drop_last()[k]);
        assert(spec_copy_ops(segs)[t] == copy_of(segs[k]));
    }
}

/// Immediately after segment mapping, every byte position `b` of a
/// segment's file range sits in the window at the segment's virtual
/// address plus `b`'s offset within the range: the per-segment reading
/// of `lemma_copies_map_image`.
pub proof fn lemma_segments_mapped(
    vm: Seq<u8>,
    image: Seq<u8>,
    segs: Seq<Segment>,
    k: int,
    b: int,
)
    requires
        copies_in_bounds(spec_copy_ops(segs), vm.len() as int, image.len() as int),
        copies_disjoint(spec_copy_ops(segs)),
        0 <= k < segs.len(),
        !is_pagezero(segs[k]),
        segs[k].offset <= b < segs[k].offset + segs[k].size,
    ensures
        copies_applied(vm, image, spec_copy_ops(segs))[segs[k].vm_addr + (b - segs[k].offset)]
            == image[b],
{
    let ops = spec_copy_ops(segs);
    lemma_copy_ops_complete(segs, k);
    let t = choose|t: int| 0 <= t < ops.len() && #[trigger] ops[t] == copy_of(segs[k]);
    lemma_copies_map_image(vm, image, ops);
    assert(copy_maps_byte(vm, image, ops, t, b - segs[k].offset));
}

/// The request the unverified shell hands to the host dynamic linker for
/// one dylib load command.
pub struct DylibRequest {
    /// the dylib path, without the terminating NUL
    pub name: Vec<u8>,

    /// the `dlopen` mode derived from the command variant
    pub flags: i32,

    /// whether the command is `LC_LOAD_WEAK_DYLIB`, for which a null
    /// handle is not fatal
    pub weak: bool,
}

/// The `dlopen` mode for a dylib load command: weak loads probe without
/// loading, lazy loads defer binding, everything else binds now with
/// default mode 0.
pub open spec fn spec_dylib_flags(cmd: u32) -> i32 {
    if cmd == LC_LOAD_WEAK_DYLIB {
        RTLD_NOLOAD
    } else if cmd == LC_LAZY_LOAD_DYLIB {
        RTLD_LAZY
    } else {
        0
    }
}

/// Plans the dynamic-library openings, in load command order, so that
/// the 1-based position in the result reproduces the Mach-O library
/// ordinal.
pub fn dylib_requests(macho: &MachO) -> (r: Vec<DylibRequest>)
    ensures
        r@.len() == macho.dylibs@.len(),
        forall|i: int|
            0 <= i < r@.len() ==> {
                let d = macho.dylibs@[i];
                &&& (#[trigger] r@[i]).name@ == d.name@
                &&& r@[i].flags == spec_dylib_flags(d.cmd)
                &&& r@[i].weak == (d.cmd == LC_LOAD_WEAK_DYLIB)
            },
{
    let n = macho.dylibs.len();
    let mut reqs: Vec<DylibRequest> = Vec::new();
    let mut i: usize = 0;
    while i < n
        invariant
            i <= n == macho.dylibs@.len(),
            reqs@.len() == i,
            forall|i2: int|
                0 <= i2 < i ==> {
                    let d = macho.dylibs@[i2];
                    &&& (#[trigger] reqs@[i2]).name@ == d.name@
                    &&& reqs@[i2].flags == spec_dylib_flags(d.cmd)
                    &&& reqs@[i2].weak == (d.cmd == LC_LOAD_WEAK_DYLIB)
                },
        decreases n - i,
    {
        let d: &DylibRef = &macho.dylibs[i];
        let weak = d.cmd == LC_LOAD_WEAK_DYLIB;
        let flags: i32 = if weak {
            RTLD_NOLOAD
        } else if d.cmd == LC_LAZY_LOAD_DYLIB {
            RTLD_LAZY
        } else {
            0
        };
        let mut name: Vec<u8> = Vec::new();
        let mut j: usize = 0;
        let dn = d.name.len();
        while j < dn
            invariant
                j <= dn == d.name@.len(),
                name@ =~= d.name@.take(j as int),
            decreases dn - j,
        {
            let b = d.name[j];
            name.push(b);
            assert(name@ =~= d.name@.take(j + 1));
            j += 1;
        }
        assert(name@ =~= d.name@);
        reqs.push(DylibRequest { name, flags, weak });
        i += 1;
    }
    reqs
}

/// Decides what a `dlopen` outcome means: a null handle is fatal exactly
/// for the required (non-weak) variants.
pub fn dylib_open_outcome(weak: bool, handle: u64) -> (r: Result<u64, LoadError>)
    ensures
        handle == 0 && !weak ==> r == Result::<u64, LoadError>::Err(LoadError::DlopenFailed),
        handle != 0 || weak ==> r == Result::<u64, LoadError>::Ok(handle),
{
    if handle == 0 && !weak {
        Err(LoadError::DlopenFailed)
    } else {
        Ok(handle)
    }
}

} // verus!
