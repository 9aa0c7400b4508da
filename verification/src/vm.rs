//! Planning and modelling the protection seals, and deciding what each
//! kernel return code means.
//!
//! The unverified shell issues `mach_vm_protect` twice per segment as
//! planned here, then reads the region back and lets `check_sealed`
//! judge the result.

use vstd::prelude::*;

use crate::LoadError;
use crate::macho::Segment;
use crate::room::is_pagezero;
use crate::room::pagezero_bytes;

verus! {

/// VM protection bit: readable.
pub const VM_PROT_READ: i32 = 0x1;

/// VM protection bit: writable.
pub const VM_PROT_WRITE: i32 = 0x2;

/// VM protection bit: executable.
pub const VM_PROT_EXECUTE: i32 = 0x4;

/// The kernel return code that means success.
pub const KERN_SUCCESS: i32 = 0;

/// One planned protection change: set the current or the maximum
/// protection of the window range `[addr, addr + size)` to `prot`.
pub struct ProtOp {
    /// start of the range, as an offset within the VM window
    pub addr: u64,

    /// length of the range
    pub size: u64,

    /// the protection value to set
    pub prot: i32,

    /// whether the maximum (true) or the current (false) protection is
    /// set
    pub set_max: bool,
}

/// The region a segment's seal targets.
pub open spec fn seal_region(seg: Segment) -> (u64, u64) {
    (seg.vm_addr, seg.vm_size)
}

/// The planned seals, in segment order: for every segment other than
/// `__PAGEZERO`, first lift the maximum protection to `initprot`, then
/// set the current protection to `initprot`.
pub open spec fn spec_protect_ops(segs: Seq<Segment>) -> Seq<ProtOp>
    decreases segs.len(),
{
    if segs.len() == 0 {
        Seq::empty()
    } else {
        spec_protect_ops(segs.drop_last()) + if is_pagezero(segs.last()) {
            Seq::empty()
        } else {
            seq![
                ProtOp {
                    addr: segs.last().vm_addr,
                    size: segs.last().vm_size,
                    prot: segs.last().initprot,
                    set_max: true,
                },
                ProtOp {
                    addr: segs.last().vm_addr,
                    size: segs.last().vm_size,
                    prot: segs.last().initprot,
                    set_max: false,
                },
            ]
        }
    }
}

/// Plans the protection seals: the two-call idiom per segment, skipping
/// `__PAGEZERO`.
pub fn protect_ops(segments: &Vec<Segment>) -> (r: Vec<ProtOp>)
    ensures
        r@ == spec_protect_ops(segments@),
{
    let pagezero = pagezero_bytes();
    let n = segments.len();
    let mut ops: Vec<ProtOp> = Vec::new();
    let mut k: usize = 0;
    while k < n
        invariant
            k <= n == segments@.len(),
            pagezero@ == crate::room::pagezero_name(),
            ops@ == spec_protect_ops(segments@.take(k as int)),
        decreases n - k,
    {
        proof {
            assert(segments@.take(k + 1).drop_last() =~= segments@.take(k as int));
            assert(segments@.take(k + 1).last() == segments@[k as int]);
        }
        let seg = &segments[k];
        if !crate::utilities::segment_name_eq(seg.name.as_slice(), pagezero.as_slice()) {
            ops.push(
                ProtOp { addr: seg.vm_addr, size: seg.vm_size, prot: seg.initprot, set_max: true },
            );
            ops.push(
                ProtOp { addr: seg.vm_addr, size: seg.vm_size, prot: seg.initprot, set_max: false },
            );
            assert(ops@ =~= spec_protect_ops(segments@.take(k + 1)));
        } else {
            assert(ops@ =~= spec_protect_ops(segments@.take(k + 1)));
        }
        k += 1;
    }
    proof {
        assert(segments@.take(n as int) =~= segments@);
    }
    ops
}

/// The kernel's protection state, as the loader sees it: each region
/// carries a (current, maximum) protection pair.
pub open spec fn apply_prot_op(
    m: Map<(u64, u64), (i32, i32)>,
    op: ProtOp,
) -> Map<(u64, u64), (i32, i32)> {
    let key = (op.addr, op.size);
    let prev = m[key];
    m.insert(
        key,
        if op.set_max {
            (prev.0, op.prot)
        } else {
            (op.prot, prev.1)
        },
    )
}

/// The protection state after a sequence of planned changes, applied in
/// order.
pub open spec fn apply_prot_ops(
    m: Map<(u64, u64), (i32, i32)>,
    ops: Seq<ProtOp>,
) -> Map<(u64, u64), (i32, i32)>
    decreases ops.len(),
{
    if ops.len() == 0 {
        m
    } else {
        apply_prot_op(apply_prot_ops(m, ops.drop_last()), ops.last())
    }
}

/// The last segment, other than `__PAGEZERO`, whose seal targets `key`:
/// the seal that ends up owning the region.
pub open spec fn seal_owner(segs: Seq<Segment>, key: (u64, u64)) -> Option<Segment>
    decreases segs.len(),
{
    if segs.len() == 0 {
        None
    } else if !is_pagezero(segs.last()) && seal_region(segs.last()) == key {
        Some(segs.last())
    } else {
        seal_owner(segs.drop_last(), key)
    }
}

/// The protection state the seals leave behind: every owned region at
/// exactly (initprot, initprot) of its owner, everything else untouched.
pub open spec fn spec_sealed(
    m: Map<(u64, u64), (i32, i32)>,
    segs: Seq<Segment>,
) -> Map<(u64, u64), (i32, i32)> {
    Map::new(
        |key: (u64, u64)| m.dom().contains(key),
        |key: (u64, u64)|
            match seal_owner(segs, key) {
                Some(seg) => (seg.initprot, seg.initprot),
                None => m[key],
            },
    )
}

/// Applying the planned seals drives every sealed region to exactly its
/// owner's `initprot`, as current and as maximum protection, and touches
/// nothing else.
pub proof fn lemma_seal_effect(m: Map<(u64, u64), (i32, i32)>, segs: Seq<Segment>)
    requires
        forall|k: int|
            0 <= k < segs.len() && !is_pagezero(segs[k]) ==> m.dom().contains(
                #[trigger] seal_region(segs[k]),
            ),
    ensures
        apply_prot_ops(m, spec_protect_ops(segs)) =~= spec_sealed(m, segs),
    decreases segs.len(),
{
    if segs.len() == 0 {
        assert(apply_prot_ops(m, spec_protect_ops(segs)) =~= spec_sealed(m, segs));
    } else {
        let prefix = segs.drop_last();
        let last = segs.last();
        lemma_seal_effect(m, prefix);
        let ops = spec_protect_ops(segs);
        let pops = spec_protect_ops(prefix);
        let before = apply_prot_ops(m, pops);
        if is_pagezero(last) {
            assert(ops =~= pops);
            assert forall|key: (u64, u64)| m.dom().contains(key) implies seal_owner(segs, key)
                == seal_owner(prefix, key) by {}
            assert(apply_prot_ops(m, ops) =~= spec_sealed(m, segs));
        } else {
            let op_max = ProtOp {
                addr: last.vm_addr,
                size: last.vm_size,
                prot: last.initprot,
                set_max: true,
            };
            let op_cur = ProtOp {
                addr: last.vm_addr,
                size: last.vm_size,
                prot: last.initprot,
                set_max: false,
            };
            assert(ops =~= pops + seq![op_max, op_cur]);
            assert(ops.len() == pops.len() + 2);
            assert(ops.drop_last() =~= pops + seq![op_max]);
            assert((pops + seq![op_max]).drop_last() =~= pops);
            assert(ops.last() == op_cur);
            assert((pops + seq![op_max]).last() == op_max);
            let after = apply_prot_op(apply_prot_op(before, op_max), op_cur);
            assert(apply_prot_ops(m, pops + seq![op_max]) == apply_prot_op(before, op_max));
            assert(apply_prot_ops(m, ops) == apply_prot_op(
                apply_prot_ops(m, pops + seq![op_max]),
                op_cur,
            ));
            assert(apply_prot_ops(m, ops) == after);
            assert(m.dom().contains(seal_region(segs[segs.len() - 1])));
            assert forall|key: (u64, u64)| #[trigger]
                after.dom().contains(key) == m.dom().contains(key) by {}
            assert forall|key: (u64, u64)| m.dom().contains(key) implies after[key] == spec_sealed(
                m,
                segs,
            )[key] by {
                if key == seal_region(last) {
                    assert(after[key] == (last.initprot, last.initprot));
                    assert(seal_owner(segs, key) == Some(last));
                } else {
                    assert(after[key] == before[key]);
                    assert(seal_owner(segs, key) == seal_owner(prefix, key));
                }
            }
            assert(after =~= spec_sealed(m, segs));
        }
    }
}

/// When a segment's seal is the last to target its region, the sealed
/// state reports exactly its `initprot`: with distinct regions, every
/// segment's protection lands where the design says.
pub proof fn lemma_owner_self(segs: Seq<Segment>, k: int)
    requires
        0 <= k < segs.len(),
        !is_pagezero(segs[k]),
        forall|k2: int|
            k < k2 < segs.len() && !is_pagezero(segs[k2]) ==> seal_region(segs[k2]) != seal_region(
                segs[k],
            ),
    ensures
        seal_owner(segs, seal_region(segs[k])) == Some(segs[k]),
    decreases segs.len(),
{
    if k == segs.len() - 1 {
    } else {
        lemma_owner_self(segs.drop_last(), k);
    }
}

/// Sealing is idempotent: applying the planned seals a second time
/// leaves the protection state exactly where the first pass put it.
pub proof fn lemma_seal_idempotent(m: Map<(u64, u64), (i32, i32)>, segs: Seq<Segment>)
    requires
        forall|k: int|
            0 <= k < segs.len() && !is_pagezero(segs[k]) ==> m.dom().contains(
                #[trigger] seal_region(segs[k]),
            ),
    ensures
        apply_prot_ops(apply_prot_ops(m, spec_protect_ops(segs)), spec_protect_ops(segs))
            =~= apply_prot_ops(m, spec_protect_ops(segs)),
{
    let m2 = apply_prot_ops(m, spec_protect_ops(segs));
    lemma_seal_effect(m, segs);
    assert(m2.dom() =~= m.dom());
    lemma_seal_effect(m2, segs);
    assert(spec_sealed(m2, segs) =~= m2);
}

/// After sealing, every segment other than `__PAGEZERO` whose region no
/// later seal targets again has kernel-state protection exactly equal
/// to its `initprot`, as current and as maximum.
pub proof fn lemma_sealed_protections(
    m: Map<(u64, u64), (i32, i32)>,
    segs: Seq<Segment>,
    k: int,
)
    requires
        forall|k2: int|
            0 <= k2 < segs.len() && !is_pagezero(segs[k2]) ==> m.dom().contains(
                #[trigger] seal_region(segs[k2]),
            ),
        0 <= k < segs.len(),
        !is_pagezero(segs[k]),
        forall|k2: int|
            k < k2 < segs.len() && !is_pagezero(segs[k2]) ==> seal_region(segs[k2]) != seal_region(
                segs[k],
            ),
    ensures
        apply_prot_ops(m, spec_protect_ops(segs))[seal_region(segs[k])] == (
            segs[k].initprot,
            segs[k].initprot,
        ),
{
    lemma_seal_effect(m, segs);
    lemma_owner_self(segs, k);
}

/// The human-readable form of a protection value, `(rwx)` style.
pub open spec fn spec_prot_string(prot: i32) -> Seq<char> {
    seq![
        '(',
        if prot & VM_PROT_READ != 0 {
            'r'
        } else {
            '-'
        },
        if prot & VM_PROT_WRITE != 0 {
            'w'
        } else {
            '-'
        },
        if prot & VM_PROT_EXECUTE != 0 {
            'x'
        } else {
            '-'
        },
        ')',
    ]
}

/// Renders a protection value as a human-readable string, for the
/// shell's diagnostics.
pub fn vm_prot_into_string(prot: i32) -> (r: String)
    ensures
        r@ == spec_prot_string(prot),
{
    let mut s = String::new();
    s.append("(");
    if prot & VM_PROT_READ != 0 {
        s.append("r");
    } else {
        s.append("-");
    }
    if prot & VM_PROT_WRITE != 0 {
        s.append("w");
    } else {
        s.append("-");
    }
    if prot & VM_PROT_EXECUTE != 0 {
        s.append("x");
    } else {
        s.append("-");
    }
    s.append(")");
    proof {
        reveal_strlit("(");
        reveal_strlit(")");
        reveal_strlit("r");
        reveal_strlit("w");
        reveal_strlit("x");
        reveal_strlit("-");
        assert(s@ =~= spec_prot_string(prot));
    }
    s
}

/// Decides what a kernel allocation outcome means: success must also
/// return a non-null base.
pub fn alloc_outcome(kern_return: i32, addr: u64) -> (r: Result<u64, LoadError>)
    ensures
        kern_return == KERN_SUCCESS && addr != 0 ==> r == Result::<u64, LoadError>::Ok(addr),
        kern_return != KERN_SUCCESS || addr == 0 ==> r == Result::<u64, LoadError>::Err(
            LoadError::VmAllocFailed(kern_return),
        ),
{
    if kern_return == KERN_SUCCESS && addr != 0 {
        Ok(addr)
    } else {
        Err(LoadError::VmAllocFailed(kern_return))
    }
}

/// Decides what a kernel write outcome means.
pub fn write_outcome(kern_return: i32) -> (r: Result<(), LoadError>)
    ensures
        kern_return == KERN_SUCCESS ==> r == Result::<(), LoadError>::Ok(()),
        kern_return != KERN_SUCCESS ==> r == Result::<(), LoadError>::Err(
            LoadError::VmWriteFailed(kern_return),
        ),
{
    if kern_return == KERN_SUCCESS {
        Ok(())
    } else {
        Err(LoadError::VmWriteFailed(kern_return))
    }
}

/// Decides what a kernel protection-change outcome means.
pub fn protect_outcome(kern_return: i32) -> (r: Result<(), LoadError>)
    ensures
        kern_return == KERN_SUCCESS ==> r == Result::<(), LoadError>::Ok(()),
        kern_return != KERN_SUCCESS ==> r == Result::<(), LoadError>::Err(
            LoadError::VmProtectFailed(kern_return),
        ),
{
    if kern_return == KERN_SUCCESS {
        Ok(())
    } else {
        Err(LoadError::VmProtectFailed(kern_return))
    }
}

/// Decides what a kernel region-query outcome means: on success the
/// reported protection is handed through.
pub fn query_outcome(kern_return: i32, prot: i32) -> (r: Result<i32, LoadError>)
    ensures
        kern_return == KERN_SUCCESS ==> r == Result::<i32, LoadError>::Ok(prot),
        kern_return != KERN_SUCCESS ==> r == Result::<i32, LoadError>::Err(
            LoadError::VmQueryFailed(kern_return),
        ),
{
    if kern_return == KERN_SUCCESS {
        Ok(prot)
    } else {
        Err(LoadError::VmQueryFailed(kern_return))
    }
}

/// Judges the post-seal readback: the kernel-reported protection must
/// equal the segment's `initprot` exactly.
pub fn check_sealed(reported: i32, initprot: i32) -> (r: Result<(), LoadError>)
    ensures
        reported == initprot ==> r == Result::<(), LoadError>::Ok(()),
        reported != initprot ==> r == Result::<(), LoadError>::Err(LoadError::ProtectionMismatch),
{
    if reported == initprot {
        Ok(())
    } else {
        Err(LoadError::ProtectionMismatch)
    }
}

/// Judges the entry-point region's protection: it must contain read and
/// execute.
pub fn check_entry_protection(prot: i32) -> (r: Result<(), LoadError>)
    ensures
        prot & (VM_PROT_READ | VM_PROT_EXECUTE) == (VM_PROT_READ | VM_PROT_EXECUTE) ==> r
            == Result::<(), LoadError>::Ok(()),
        prot & (VM_PROT_READ | VM_PROT_EXECUTE) != (VM_PROT_READ | VM_PROT_EXECUTE) ==> r
            == Result::<(), LoadError>::Err(LoadError::EntryNotExecutable),
{
    if prot & (VM_PROT_READ | VM_PROT_EXECUTE) == (VM_PROT_READ | VM_PROT_EXECUTE) {
        Ok(())
    } else {
        Err(LoadError::EntryNotExecutable)
    }
}

} // verus!
