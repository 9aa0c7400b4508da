//! Planning the Global Offset Table rebind.
//!
//! The walk selects the `__DATA_CONST` segments, and inside them the
//! sections named `__got` or `__auth_got`.  Each 8-byte slot holds a
//! pre-linker pointer value; after the arm64 tag strip it names a
//! symbol by its `n_value`.  The symbol must be undefined, its library
//! ordinal picks the dylib, and its name, with the leading underscore
//! stripped, is what the host linker is asked for.  The unverified
//! shell performs the `dlsym` calls and the slot writes the plan asks
//! for, signing the address first when the slot is an `__auth_got`
//! slot.

use vstd::prelude::*;

use crate::LoadError;
use crate::macho::MachO;
use crate::macho::N_TYPE;
use crate::macho::N_UNDF;
use crate::macho::S_LAZY_SYMBOL_POINTERS;
use crate::macho::S_NON_LAZY_SYMBOL_POINTERS;
use crate::macho::SECTION_TYPE;
use crate::macho::Section;
use crate::macho::Segment;
use crate::macho::Symbol;
use crate::utilities::le_u64_at;
use crate::utilities::name_has_prefix;
use crate::utilities::read_bytes;
use crate::utilities::read_ptr;
use crate::utilities::segment_name_eq;
use crate::utilities::spec_read_ptr;

verus! {

/// The fixed 16-byte name prefix of the segment that holds the GOT.
pub open spec fn data_const_name() -> Seq<u8> {
    seq![95u8, 95u8, 68u8, 65u8, 84u8, 65u8, 95u8, 67u8, 79u8, 78u8, 83u8, 84u8]
}

/// The name prefix of a plain GOT section.
pub open spec fn got_name() -> Seq<u8> {
    seq![95u8, 95u8, 103u8, 111u8, 116u8]
}

/// The name prefix of a pointer-authenticated GOT section.
pub open spec fn auth_got_name() -> Seq<u8> {
    seq![95u8, 95u8, 97u8, 117u8, 116u8, 104u8, 95u8, 103u8, 111u8, 116u8]
}

/// Builds the `__DATA_CONST` name as bytes.
pub fn data_const_bytes() -> (r: Vec<u8>)
    ensures
        r@ == data_const_name(),
{
    let mut v: Vec<u8> = Vec::new();
    v.push(95);
    v.push(95);
    v.push(68);
    v.push(65);
    v.push(84);
    v.push(65);
    v.push(95);
    v.push(67);
    v.push(79);
    v.push(78);
    v.push(83);
    v.push(84);
    assert(v@ =~= data_const_name());
    v
}

/// Builds the `__got` name as bytes.
pub fn got_bytes() -> (r: Vec<u8>)
    ensures
        r@ == got_name(),
{
    let mut v: Vec<u8> = Vec::new();
    v.push(95);
    v.push(95);
    v.push(103);
    v.push(111);
    v.push(116);
    assert(v@ =~= got_name());
    v
}

/// Builds the `__auth_got` name as bytes.
pub fn auth_got_bytes() -> (r: Vec<u8>)
    ensures
        r@ == auth_got_name(),
{
    let mut v: Vec<u8> = Vec::new();
    v.push(95);
    v.push(95);
    v.push(97);
    v.push(117);
    v.push(116);
    v.push(104);
    v.push(95);
    v.push(103);
    v.push(111);
    v.push(116);
    assert(v@ =~= auth_got_name());
    v
}

/// Whether a segment's name begins with `__DATA_CONST`.
pub open spec fn is_data_const(seg: Segment) -> bool {
    name_has_prefix(seg.name@, data_const_name())
}

/// Whether a section's name begins with `__got` or `__auth_got`.
pub open spec fn is_got_named(sec: Section) -> bool {
    name_has_prefix(sec.name@, got_name()) || name_has_prefix(sec.name@, auth_got_name())
}

/// Whether the rebinder handles this section: a GOT-named section of a
/// `__DATA_CONST` segment.
pub open spec fn handled_section(seg: Segment, sec: Section) -> bool {
    is_data_const(seg) && is_got_named(sec)
}

/// Section `j` of segment `k` is handled.
pub open spec fn section_handled(segs: Seq<Segment>, k: int, j: int) -> bool {
    &&& 0 <= k < segs.len()
    &&& 0 <= j < segs[k].sections@.len()
    &&& handled_section(segs[k], segs[k].sections@[j])
}

/// Whether a handled section's type is one the rebinder supports:
/// non-lazy or lazy symbol pointers.
pub open spec fn got_type_ok(sec: Section) -> bool {
    sec.flags & SECTION_TYPE == S_NON_LAZY_SYMBOL_POINTERS || sec.flags & SECTION_TYPE
        == S_LAZY_SYMBOL_POINTERS
}

/// The number of 8-byte pointer slots of a section.
pub open spec fn sec_slot_count(sec: Section) -> int {
    sec.vm_size as int / 8
}

/// The first symbol among the first `k` whose `n_value` equals `v`.
pub open spec fn sym_first(syms: Seq<Symbol>, v: u64, k: nat) -> Option<nat>
    decreases k,
{
    if k == 0 {
        None
    } else {
        match sym_first(syms, v, (k - 1) as nat) {
            Some(i) => Some(i),
            None => if syms[k - 1].n_value == v {
                Some((k - 1) as nat)
            } else {
                None
            },
        }
    }
}

/// The first symbol whose `n_value` equals `v`.
pub open spec fn sym_lookup(syms: Seq<Symbol>, v: u64) -> Option<nat> {
    sym_first(syms, v, syms.len())
}

/// Once a first matching symbol is found, scanning further symbols does
/// not change it.
proof fn lemma_sym_first_stable(syms: Seq<Symbol>, v: u64, k1: nat, k2: nat)
    requires
        k1 <= k2,
    ensures
        sym_first(syms, v, k1) is Some ==> sym_first(syms, v, k2) == sym_first(syms, v, k1),
    decreases k2 - k1,
{
    if k1 < k2 {
        lemma_sym_first_stable(syms, v, (k1 + 1) as nat, k2);
    }
}

/// Finds the first symbol whose `n_value` equals `v`, as the rebinder
/// identifies the symbol a GOT slot refers to.
pub fn find_symbol_by_value(symbols: &Vec<Symbol>, v: u64) -> (r: Option<usize>)
    ensures
        match r {
            Some(i) => i < symbols@.len() && sym_lookup(symbols@, v) == Some(i as nat),
            None => sym_lookup(symbols@, v) is None,
        },
{
    let n = symbols.len();
    let mut i: usize = 0;
    while i < n
        invariant
            i <= n == symbols@.len(),
            sym_first(symbols@, v, i as nat) is None,
        decreases n - i,
    {
        if symbols[i].n_value == v {
            assert(sym_first(symbols@, v, (i + 1) as nat) == Some(i as nat));
            proof {
                lemma_sym_first_stable(symbols@, v, (i + 1) as nat, symbols@.len());
            }
            return Some(i);
        }
        assert(sym_first(symbols@, v, (i + 1) as nat) is None);
        i += 1;
    }
    None
}

/// The pre-linker pointer value encoded in slot `i` of a section: the
/// 8 bytes at the section's file offset, tag-stripped.
pub open spec fn slot_ptr(image: Seq<u8>, sec: Section, i: int) -> u64 {
    spec_read_ptr(image, sec.offset + 8 * i)
}

/// Everything slot `i` of a handled section needs in order to be
/// rebound: the slot's bytes lie in the image, the slot's own address
/// fits, its pointer names a symbol, that symbol is undefined with a
/// non-empty name, and its library ordinal indexes the dylib table.
pub open spec fn slot_ok(
    sec: Section,
    syms: Seq<Symbol>,
    image: Seq<u8>,
    ndylibs: int,
    i: int,
) -> bool {
    &&& sec.offset + 8 * i + 8 <= image.len()
    &&& sec.vm_addr + 8 * i + 8 <= u64::MAX
    &&& match sym_lookup(syms, slot_ptr(image, sec, i)) {
        Some(ix) => {
            let sym = syms[ix as int];
            &&& sym.n_type & N_TYPE == N_UNDF
            &&& sym.name@.len() >= 1
            &&& 1 <= ((sym.n_desc as u32) >> 8) & 0xff <= ndylibs
        },
        None => false,
    }
}

/// Slot `i` of section `j` of segment `k` is ready to be rebound.
pub open spec fn slot_ok_at(
    segs: Seq<Segment>,
    syms: Seq<Symbol>,
    image: Seq<u8>,
    ndylibs: int,
    k: int,
    j: int,
    i: int,
) -> bool {
    slot_ok(segs[k].sections@[j], syms, image, ndylibs, i)
}

/// One planned GOT write: ask the dylib at `ordinal` for `symbol`, sign
/// the address with the slot's own final address when `auth` holds, and
/// store the 8 bytes at window offset `addr`.
pub struct GotSlot {
    /// the slot's offset within the VM window
    pub addr: u64,

    /// the symbol name handed to the host linker, leading underscore
    /// stripped
    pub symbol: Vec<u8>,

    /// the 1-based library ordinal that picks the dylib handle
    pub ordinal: u8,

    /// whether the slot lives in an `__auth_got` section and the stored
    /// pointer is to be signed
    pub auth: bool,
}

/// A planned write fills slot `i` of section `sec` exactly as the
/// design says.
pub open spec fn slot_matches(
    g: GotSlot,
    sec: Section,
    syms: Seq<Symbol>,
    image: Seq<u8>,
    i: int,
) -> bool {
    match sym_lookup(syms, slot_ptr(image, sec, i)) {
        Some(ix) => {
            let sym = syms[ix as int];
            &&& g.addr == sec.vm_addr + 8 * i
            &&& g.symbol@ == sym.name@.subrange(1, sym.name@.len() as int)
            &&& g.ordinal == ((sym.n_desc as u32) >> 8) & 0xff
            &&& g.auth == name_has_prefix(sec.name@, auth_got_name())
        },
        None => false,
    }
}

/// A planned write belongs to some handled slot, ready and correctly
/// derived.
pub open spec fn slot_sound(
    g: GotSlot,
    segs: Seq<Segment>,
    syms: Seq<Symbol>,
    image: Seq<u8>,
    ndylibs: int,
) -> bool {
    exists|k: int, j: int, i: int|
        section_handled(segs, k, j) && 0 <= i < sec_slot_count(segs[k].sections@[j])
            && #[trigger] slot_ok_at(segs, syms, image, ndylibs, k, j, i) && slot_matches(
            g,
            segs[k].sections@[j],
            syms,
            image,
            i,
        )
}

/// The plan holds a write for slot `i` of section `j` of segment `k`.
pub open spec fn slot_found(
    plan: Seq<GotSlot>,
    segs: Seq<Segment>,
    syms: Seq<Symbol>,
    image: Seq<u8>,
    k: int,
    j: int,
    i: int,
) -> bool {
    exists|t: int|
        0 <= t < plan.len() && slot_matches(#[trigger] plan[t], segs[k].sections@[j], syms, image, i)
}

/// Plans the writes of one handled section, appending to `plan`.  Fails
/// with `BadGotSection` exactly when the section's type is unsupported,
/// and with `ParseFailed` or `SymbolOrdinalOutOfRange` when some slot
/// is not ready.
#[verifier::rlimit(100)]
fn section_slots(
    plan: &mut Vec<GotSlot>,
    macho: &MachO,
    image: &[u8],
    ndylibs: usize,
    k: usize,
    j: usize,
    is_auth: bool,
) -> (r: Result<(), LoadError>)
    requires
        section_handled(macho.segments@, k as int, j as int),
        is_auth == name_has_prefix(
            macho.segments@[k as int].sections@[j as int].name@,
            auth_got_name(),
        ),
    ensures
        ({
            let segs = macho.segments@;
            let syms = macho.symbols@;
            let sec = segs[k as int].sections@[j as int];
            match r {
                Ok(()) => {
                    &&& got_type_ok(sec)
                    &&& final(plan)@.len() == old(plan)@.len() + sec_slot_count(sec)
                    &&& forall|t: int|
                        0 <= t < old(plan)@.len() ==> final(plan)@[t] == #[trigger] old(plan)@[t]
                    &&& forall|t: int|
                        old(plan)@.len() <= t < final(plan)@.len() ==> slot_sound(
                            #[trigger] final(plan)@[t],
                            segs,
                            syms,
                            image@,
                            ndylibs as int,
                        )
                    &&& forall|i: int|
                        0 <= i < sec_slot_count(sec) ==> #[trigger] slot_ok_at(
                            segs,
                            syms,
                            image@,
                            ndylibs as int,
                            k as int,
                            j as int,
                            i,
                        )
                    &&& forall|i: int|
                        0 <= i < sec_slot_count(sec) ==> #[trigger] slot_found(
                            final(plan)@,
                            segs,
                            syms,
                            image@,
                            k as int,
                            j as int,
                            i,
                        )
                },
                Err(e) => {
                    &&& (e == LoadError::BadGotSection || e == LoadError::ParseFailed || e
                        == LoadError::SymbolOrdinalOutOfRange)
                    &&& e == LoadError::BadGotSection ==> !got_type_ok(sec)
                    &&& e != LoadError::BadGotSection ==> exists|i: int|
                        0 <= i < sec_slot_count(sec) && !slot_ok_at(
                            segs,
                            syms,
                            image@,
                            ndylibs as int,
                            k as int,
                            j as int,
                            i,
                        )
                },
            }
        }),
{
    let ghost segs = macho.segments@;
    let ghost syms = macho.symbols@;
    let ghost old_plan = plan@;
    let seg = &macho.segments[k];
    let sec = &seg.sections[j];
    let ghost secv = segs[k as int].sections@[j as int];

    let sectype = sec.flags & SECTION_TYPE;
    if sectype != S_NON_LAZY_SYMBOL_POINTERS && sectype != S_LAZY_SYMBOL_POINTERS {
        return Err(LoadError::BadGotSection);
    }

    let image_len = image.len();
    let nslots: u64 = sec.vm_size / 8;
    assert(nslots == sec_slot_count(secv));
    let mut i: u64 = 0;
    while i < nslots
        invariant
            i <= nslots,
            nslots == sec_slot_count(secv),
            segs == macho.segments@,
            syms == macho.symbols@,
            secv == segs[k as int].sections@[j as int],
            *sec == secv,
            section_handled(segs, k as int, j as int),
            is_auth == name_has_prefix(secv.name@, auth_got_name()),
            image_len == image@.len(),
            plan@.len() == old_plan.len() + i,
            forall|t: int| 0 <= t < old_plan.len() ==> plan@[t] == #[trigger] old_plan[t],
            forall|t: int|
                old_plan.len() <= t < plan@.len() ==> slot_sound(
                    #[trigger] plan@[t],
                    segs,
                    syms,
                    image@,
                    ndylibs as int,
                ),
            forall|i2: int|
                0 <= i2 < i ==> #[trigger] slot_ok_at(
                    segs,
                    syms,
                    image@,
                    ndylibs as int,
                    k as int,
                    j as int,
                    i2,
                ),
            forall|i2: int|
                0 <= i2 < i ==> #[trigger] slot_found(
                    plan@,
                    segs,
                    syms,
                    image@,
                    k as int,
                    j as int,
                    i2,
                ),
        decreases nslots - i,
    {
        proof {
            assert(8 * (i as int) + 8 <= 8 * sec_slot_count(secv)) by (nonlinear_arith)
                requires i < sec_slot_count(secv);
            assert(8 * sec_slot_count(secv) <= secv.vm_size as int) by (nonlinear_arith);
        }
        let slot_file_end: u128 = sec.offset as u128 + 8 * (i as u128) + 8;
        if slot_file_end > image_len as u128 {
            assert(!slot_ok_at(segs, syms, image@, ndylibs as int, k as int, j as int, i as int));
            return Err(LoadError::ParseFailed);
        }
        let slot_vm_end: u128 = sec.vm_addr as u128 + 8 * (i as u128) + 8;
        if slot_vm_end > u64::MAX as u128 {
            assert(!slot_ok_at(segs, syms, image@, ndylibs as int, k as int, j as int, i as int));
            return Err(LoadError::ParseFailed);
        }
        let slot_off: usize = (sec.offset as u64 + 8 * i) as usize;
        assert(slot_off + 8 <= image@.len());
        let ptr = read_ptr(true, image, slot_off);
        assert(ptr == slot_ptr(image@, secv, i as int));

        let ix = match find_symbol_by_value(&macho.symbols, ptr) {
            Some(ix) => ix,
            None => {
                assert(!slot_ok_at(
                    segs,
                    syms,
                    image@,
                    ndylibs as int,
                    k as int,
                    j as int,
                    i as int,
                ));
                return Err(LoadError::ParseFailed);
            },
        };
        let sym = &macho.symbols[ix];
        if sym.n_type & N_TYPE != N_UNDF {
            assert(!slot_ok_at(segs, syms, image@, ndylibs as int, k as int, j as int, i as int));
            return Err(LoadError::ParseFailed);
        }
        let name_len = sym.name.len();
        if name_len < 1 {
            assert(!slot_ok_at(segs, syms, image@, ndylibs as int, k as int, j as int, i as int));
            return Err(LoadError::ParseFailed);
        }
        let ord = crate::get_library_ordinal(sym.n_desc as u32);
        if ord == 0 || ord as usize > ndylibs {
            assert(!slot_ok_at(segs, syms, image@, ndylibs as int, k as int, j as int, i as int));
            return Err(LoadError::SymbolOrdinalOutOfRange);
        }
        let symbol = read_bytes(sym.name.as_slice(), 1, name_len - 1);
        let slot = GotSlot { addr: sec.vm_addr + 8 * i, symbol, ordinal: ord, auth: is_auth };
        proof {
            assert(slot_ok_at(segs, syms, image@, ndylibs as int, k as int, j as int, i as int));
            assert(slot_matches(slot, secv, syms, image@, i as int));
        }
        let ghost prev = plan@;
        plan.push(slot);
        proof {
            let t = prev.len() as int;
            assert(plan@ == prev.push(slot));
            assert(plan@[t] == slot);
            assert(slot_sound(plan@[t], segs, syms, image@, ndylibs as int));
            assert(slot_found(plan@, segs, syms, image@, k as int, j as int, i as int));
            assert forall|i2: int| 0 <= i2 < i implies #[trigger] slot_found(
                plan@,
                segs,
                syms,
                image@,
                k as int,
                j as int,
                i2,
            ) by {
                assert(slot_found(prev, segs, syms, image@, k as int, j as int, i2));
                let t2 = choose|t2: int|
                    0 <= t2 < prev.len() && slot_matches(
                        #[trigger] prev[t2],
                        segs[k as int].sections@[j as int],
                        syms,
                        image@,
                        i2,
                    );
                assert(plan@[t2] == prev[t2]);
                assert(slot_matches(plan@[t2], segs[k as int].sections@[j as int], syms, image@, i2));
            }
        }
        i += 1;
    }
    Ok(())
}
/// The number of writes the first `j` sections of segment `seg`
/// contribute to the plan: the slots of its handled sections.
pub open spec fn sec_slots_upto(seg: Segment, j: int) -> int
    decreases j,
{
    if j <= 0 {
        0
    } else {
        sec_slots_upto(seg, j - 1) + if handled_section(seg, seg.sections@[j - 1]) {
            sec_slot_count(seg.sections@[j - 1])
        } else {
            0
        }
    }
}

/// The number of writes the first `k` segments contribute to the plan.
pub open spec fn total_slots_upto(segs: Seq<Segment>, k: int) -> int
    decreases k,
{
    if k <= 0 {
        0
    } else {
        total_slots_upto(segs, k - 1) + sec_slots_upto(
            segs[k - 1],
            segs[k - 1].sections@.len() as int,
        )
    }
}

/// A segment that is not `__DATA_CONST` contributes no writes.
proof fn lemma_sec_slots_zero(seg: Segment, j: int)
    requires
        !is_data_const(seg),
    ensures
        sec_slots_upto(seg, j) == 0,
    decreases (if j <= 0 { 0int } else { j }),
{
    if j > 0 {
        lemma_sec_slots_zero(seg, j - 1);
    }
}

/// Every handled section among those the walk has passed has a
/// supported type.  `k` and `j` bound the walk: all sections of earlier
/// segments, and the first `j` sections of segment `k`.
pub open spec fn types_ok_upto(segs: Seq<Segment>, k: int, j: int) -> bool {
    forall|k2: int, j2: int|
        #[trigger] section_handled(segs, k2, j2) && (k2 < k || (k2 == k && j2 < j))
            ==> got_type_ok(segs[k2].sections@[j2])
}

/// Every slot of every handled section the walk has passed is ready and
/// has its write in the plan.
pub open spec fn slots_done_upto(
    plan: Seq<GotSlot>,
    segs: Seq<Segment>,
    syms: Seq<Symbol>,
    image: Seq<u8>,
    ndylibs: int,
    k: int,
    j: int,
) -> bool {
    forall|k2: int, j2: int, i: int|
        section_handled(segs, k2, j2) && (k2 < k || (k2 == k && j2 < j)) && 0 <= i
            < sec_slot_count(segs[k2].sections@[j2]) ==> #[trigger] slot_ok_at(
            segs,
            syms,
            image,
            ndylibs,
            k2,
            j2,
            i,
        ) && slot_found(plan, segs, syms, image, k2, j2, i)
}

/// Every write the plan holds belongs to some handled slot.
pub open spec fn plan_sound(
    plan: Seq<GotSlot>,
    segs: Seq<Segment>,
    syms: Seq<Symbol>,
    image: Seq<u8>,
    ndylibs: int,
) -> bool {
    forall|t: int|
        0 <= t < plan.len() ==> slot_sound(#[trigger] plan[t], segs, syms, image, ndylibs)
}

/// Extending the plan by the slots of one more handled section keeps
/// every invariant of the walk: old entries are untouched, so their
/// soundness and the completeness of earlier sections carry over, and
/// the new section is complete by construction.
proof fn lemma_plan_extend(
    plan_before: Seq<GotSlot>,
    plan_after: Seq<GotSlot>,
    segs: Seq<Segment>,
    syms: Seq<Symbol>,
    image: Seq<u8>,
    ndylibs: int,
    k: int,
    j: int,
)
    requires
        plan_after.len() >= plan_before.len(),
        forall|t: int| 0 <= t < plan_before.len() ==> plan_after[t] == #[trigger] plan_before[t],
        plan_sound(plan_before, segs, syms, image, ndylibs),
        forall|t: int|
            plan_before.len() <= t < plan_after.len() ==> slot_sound(
                #[trigger] plan_after[t],
                segs,
                syms,
                image,
                ndylibs,
            ),
        types_ok_upto(segs, k, j),
        slots_done_upto(plan_before, segs, syms, image, ndylibs, k, j),
        section_handled(segs, k, j),
        got_type_ok(segs[k].sections@[j]),
        forall|i: int|
            0 <= i < sec_slot_count(segs[k].sections@[j]) ==> #[trigger] slot_ok_at(
                segs,
                syms,
                image,
                ndylibs,
                k,
                j,
                i,
            ),
        forall|i: int|
            0 <= i < sec_slot_count(segs[k].sections@[j]) ==> #[trigger] slot_found(
                plan_after,
                segs,
                syms,
                image,
                k,
                j,
                i,
            ),
    ensures
        plan_sound(plan_after, segs, syms, image, ndylibs),
        types_ok_upto(segs, k, j + 1),
        slots_done_upto(plan_after, segs, syms, image, ndylibs, k, j + 1),
{
    assert forall|t: int| 0 <= t < plan_after.len() implies slot_sound(
        #[trigger] plan_after[t],
        segs,
        syms,
        image,
        ndylibs,
    ) by {
        if t < plan_before.len() {
            assert(plan_after[t] == plan_before[t]);
            assert(slot_sound(plan_before[t], segs, syms, image, ndylibs));
        }
    }
    assert forall|k2: int, j2: int, i: int|
        section_handled(segs, k2, j2) && (k2 < k || (k2 == k && j2 < j + 1)) && 0 <= i
            < sec_slot_count(segs[k2].sections@[j2]) implies #[trigger] slot_ok_at(
        segs,
        syms,
        image,
        ndylibs,
        k2,
        j2,
        i,
    ) && slot_found(plan_after, segs, syms, image, k2, j2, i) by {
        if k2 == k && j2 == j {
            assert(slot_ok_at(segs, syms, image, ndylibs, k, j, i));
            assert(slot_found(plan_after, segs, syms, image, k, j, i));
        } else {
            assert(slot_ok_at(segs, syms, image, ndylibs, k2, j2, i));
            assert(slot_found(plan_before, segs, syms, image, k2, j2, i));
            let t = choose|t: int|
                0 <= t < plan_before.len() && slot_matches(
                    #[trigger] plan_before[t],
                    segs[k2].sections@[j2],
                    syms,
                    image,
                    i,
                );
            assert(plan_after[t] == plan_before[t]);
            assert(slot_matches(plan_after[t], segs[k2].sections@[j2], syms, image, i));
        }
    }
}

/// Passing over a section the rebinder does not handle changes nothing:
/// the walk's invariant moves from section `j` to `j + 1` as it is.
proof fn lemma_plan_skip(
    plan: Seq<GotSlot>,
    segs: Seq<Segment>,
    syms: Seq<Symbol>,
    image: Seq<u8>,
    ndylibs: int,
    k: int,
    j: int,
)
    requires
        !section_handled(segs, k, j),
        types_ok_upto(segs, k, j),
        slots_done_upto(plan, segs, syms, image, ndylibs, k, j),
    ensures
        types_ok_upto(segs, k, j + 1),
        slots_done_upto(plan, segs, syms, image, ndylibs, k, j + 1),
{
    assert forall|k2: int, j2: int|
        #[trigger] section_handled(segs, k2, j2) && (k2 < k || (k2 == k && j2 < j
            + 1)) implies got_type_ok(segs[k2].sections@[j2]) by {
        assert(k2 < k || (k2 == k && j2 < j));
    }
    assert forall|k2: int, j2: int, i: int|
        section_handled(segs, k2, j2) && (k2 < k || (k2 == k && j2 < j + 1)) && 0 <= i
            < sec_slot_count(segs[k2].sections@[j2]) implies #[trigger] slot_ok_at(
        segs,
        syms,
        image,
        ndylibs,
        k2,
        j2,
        i,
    ) && slot_found(plan, segs, syms, image, k2, j2, i) by {
        assert(k2 < k || (k2 == k && j2 < j));
    }
}

/// Finishing a segment's sections moves the walk's invariant from
/// segment `k` to the start of segment `k + 1`.
proof fn lemma_plan_next_segment(
    plan: Seq<GotSlot>,
    segs: Seq<Segment>,
    syms: Seq<Symbol>,
    image: Seq<u8>,
    ndylibs: int,
    k: int,
)
    requires
        0 <= k < segs.len(),
        types_ok_upto(segs, k, segs[k].sections@.len() as int),
        slots_done_upto(plan, segs, syms, image, ndylibs, k, segs[k].sections@.len() as int),
    ensures
        types_ok_upto(segs, k + 1, 0),
        slots_done_upto(plan, segs, syms, image, ndylibs, k + 1, 0),
{
    let nsecs = segs[k].sections@.len() as int;
    assert forall|k2: int, j2: int|
        #[trigger] section_handled(segs, k2, j2) && (k2 < k + 1 || (k2 == k + 1 && j2
            < 0)) implies got_type_ok(segs[k2].sections@[j2]) by {
        assert(k2 < k || (k2 == k && j2 < nsecs));
    }
    assert forall|k2: int, j2: int, i: int|
        section_handled(segs, k2, j2) && (k2 < k + 1 || (k2 == k + 1 && j2 < 0)) && 0 <= i
            < sec_slot_count(segs[k2].sections@[j2]) implies #[trigger] slot_ok_at(
        segs,
        syms,
        image,
        ndylibs,
        k2,
        j2,
        i,
    ) && slot_found(plan, segs, syms, image, k2, j2, i) by {
        assert(k2 < k || (k2 == k && j2 < nsecs));
    }
}

/// A dynamic linker: plans the GOT rebind against a parsed image.
#[derive(Debug, Default)]
pub struct Linker {}

impl Linker {
    /// Creates a linker.
    pub fn new() -> (r: Self) {
        Self {  }
    }

    /// Plans the whole GOT rebind: one write per 8-byte slot of every
    /// GOT-named section of every `__DATA_CONST` segment.  The plan is
    /// complete (every handled slot has its write), sound (every write
    /// belongs to a handled slot, its ordinal within the dylib table),
    /// and a GOT-named section of unsupported type, an unreadable slot,
    /// an unknown or non-undefined symbol, or an out-of-range ordinal
    /// fails the plan as a whole, so no write is handed out.
    #[verifier::rlimit(100)]
    pub fn rebind_plan(&self, macho: &MachO, image: &[u8], ndylibs: usize) -> (r: Result<
        Vec<GotSlot>,
        LoadError,
    >)
        ensures
            ({
                let segs = macho.segments@;
                let syms = macho.symbols@;
                match r {
                    Ok(plan) => {
                        &&& plan@.len() == total_slots_upto(segs, segs.len() as int)
                        &&& types_ok_upto(segs, segs.len() as int, 0)
                        &&& plan_sound(plan@, segs, syms, image@, ndylibs as int)
                        &&& slots_done_upto(
                            plan@,
                            segs,
                            syms,
                            image@,
                            ndylibs as int,
                            segs.len() as int,
                            0,
                        )
                    },
                    Err(e) => {
                        &&& (e == LoadError::BadGotSection || e == LoadError::ParseFailed || e
                            == LoadError::SymbolOrdinalOutOfRange)
                        &&& e == LoadError::BadGotSection ==> exists|k: int, j: int|
                            #[trigger] section_handled(segs, k, j) && !got_type_ok(
                                segs[k].sections@[j],
                            )
                        &&& e != LoadError::BadGotSection ==> exists|k: int, j: int, i: int|
                            section_handled(segs, k, j) && 0 <= i < sec_slot_count(
                                segs[k].sections@[j],
                            ) && !#[trigger] slot_ok_at(segs, syms, image@, ndylibs as int, k, j, i)
                    },
                }
            }),
    {
        let ghost segs = macho.segments@;
        let ghost syms = macho.symbols@;
        let data_const = data_const_bytes();
        let got = got_bytes();
        let auth_got = auth_got_bytes();
        let mut plan: Vec<GotSlot> = Vec::new();
        let nsegs = macho.segments.len();
        let mut k: usize = 0;
        while k < nsegs
            invariant
                k <= nsegs == segs.len(),
                segs == macho.segments@,
                syms == macho.symbols@,
                data_const@ == data_const_name(),
                got@ == got_name(),
                auth_got@ == auth_got_name(),
                plan@.len() == total_slots_upto(segs, k as int),
                plan_sound(plan@, segs, syms, image@, ndylibs as int),
                types_ok_upto(segs, k as int, 0),
                slots_done_upto(plan@, segs, syms, image@, ndylibs as int, k as int, 0),
            decreases nsegs - k,
        {
            let seg = &macho.segments[k];
            if segment_name_eq(seg.name.as_slice(), data_const.as_slice()) {
                let nsecs = seg.sections.len();
                let mut j: usize = 0;
                proof {
                    assert(types_ok_upto(segs, k as int, 0 as int));
                    assert forall|k2: int, j2: int|
                        #[trigger] section_handled(segs, k2, j2) && (k2 < k || (k2 == k && j2
                            < 0)) implies got_type_ok(segs[k2].sections@[j2]) by {
                        assert(k2 < k);
                    }
                }
                while j < nsecs
                    invariant
                        j <= nsecs == segs[k as int].sections@.len(),
                        k < segs.len(),
                        segs == macho.segments@,
                        syms == macho.symbols@,
                        got@ == got_name(),
                        auth_got@ == auth_got_name(),
                        is_data_const(segs[k as int]),
                        plan@.len() == total_slots_upto(segs, k as int) + sec_slots_upto(
                            segs[k as int],
                            j as int,
                        ),
                        plan_sound(plan@, segs, syms, image@, ndylibs as int),
                        types_ok_upto(segs, k as int, j as int),
                        slots_done_upto(
                            plan@,
                            segs,
                            syms,
                            image@,
                            ndylibs as int,
                            k as int,
                            j as int,
                        ),
                    decreases nsecs - j,
                {
                    let sec = &macho.segments[k].sections[j];
                    let is_plain = segment_name_eq(sec.name.as_slice(), got.as_slice());
                    let is_auth = segment_name_eq(sec.name.as_slice(), auth_got.as_slice());
                    if is_plain || is_auth {
                        let ghost plan_before = plan@;
                        match section_slots(&mut plan, macho, image, ndylibs, k, j, is_auth) {
                            Ok(()) => {
                                proof {
                                    lemma_plan_extend(
                                        plan_before,
                                        plan@,
                                        segs,
                                        syms,
                                        image@,
                                        ndylibs as int,
                                        k as int,
                                        j as int,
                                    );
                                    assert(sec_slots_upto(segs[k as int], j + 1) == sec_slots_upto(
                                        segs[k as int],
                                        j as int,
                                    ) + sec_slot_count(segs[k as int].sections@[j as int]));
                                }
                            },
                            Err(e) => {
                                proof {
                                    if e == LoadError::BadGotSection {
                                        assert(section_handled(segs, k as int, j as int)
                                            && !got_type_ok(segs[k as int].sections@[j as int]));
                                    } else {
                                        let i = choose|i: int|
                                            0 <= i < sec_slot_count(
                                                segs[k as int].sections@[j as int],
                                            ) && !slot_ok_at(
                                                segs,
                                                syms,
                                                image@,
                                                ndylibs as int,
                                                k as int,
                                                j as int,
                                                i,
                                            );
                                        assert(section_handled(segs, k as int, j as int) && 0 <= i
                                            < sec_slot_count(segs[k as int].sections@[j as int])
                                            && !slot_ok_at(
                                            segs,
                                            syms,
                                            image@,
                                            ndylibs as int,
                                            k as int,
                                            j as int,
                                            i,
                                        ));
                                    }
                                }
                                return Err(e);
                            },
                        }
                    } else {
                        proof {
                            assert(!section_handled(segs, k as int, j as int));
                            assert(sec_slots_upto(segs[k as int], j + 1) == sec_slots_upto(
                                segs[k as int],
                                j as int,
                            ));
                            lemma_plan_skip(
                                plan@,
                                segs,
                                syms,
                                image@,
                                ndylibs as int,
                                k as int,
                                j as int,
                            );
                        }
                    }
                    j += 1;
                }
                proof {
                    assert(total_slots_upto(segs, k + 1) == total_slots_upto(segs, k as int)
                        + sec_slots_upto(segs[k as int], segs[k as int].sections@.len() as int));
                    lemma_plan_next_segment(plan@, segs, syms, image@, ndylibs as int, k as int);
                }
            } else {
                proof {
                    assert(forall|j2: int|
                        0 <= j2 < segs[k as int].sections@.len() ==> !section_handled(
                            segs,
                            k as int,
                            j2,
                        ));
                    lemma_sec_slots_zero(segs[k as int], segs[k as int].sections@.len() as int);
                    assert(total_slots_upto(segs, k + 1) == total_slots_upto(segs, k as int));
                    assert forall|k2: int, j2: int|
                        #[trigger] section_handled(segs, k2, j2) && (k2 < k || (k2 == k && j2
                            < segs[k as int].sections@.len())) implies got_type_ok(
                        segs[k2].sections@[j2],
                    ) by {
                        assert(k2 < k);
                    }
                    assert forall|k2: int, j2: int, i: int|
                        section_handled(segs, k2, j2) && (k2 < k || (k2 == k && j2
                            < segs[k as int].sections@.len())) && 0 <= i < sec_slot_count(
                        segs[k2].sections@[j2],
                    ) implies #[trigger] slot_ok_at(segs, syms, image@, ndylibs as int, k2, j2, i)
                        && slot_found(plan@, segs, syms, image@, k2, j2, i) by {
                        assert(k2 < k);
                    }
                    lemma_plan_next_segment(plan@, segs, syms, image@, ndylibs as int, k as int);
                }
            }
            k += 1;
        }
        Ok(plan)
    }
}

/// Little-endian byte `b` of a 64-bit value, as an 8-byte store lays
/// it down.
pub open spec fn le_byte_of(v: u64, b: int) -> u8 {
    ((v >> ((8 * b) as u64)) & 0xff) as u8
}

/// The window after one planned 8-byte store at offset `addr`.
pub open spec fn got_write_applied(vm: Seq<u8>, addr: u64, value: u64) -> Seq<u8> {
    Seq::new(
        vm.len(),
        |p: int|
            if addr <= p < addr + 8 {
                le_byte_of(value, p - addr)
            } else {
                vm[p]
            },
    )
}

/// The window after all planned stores, the `t`-th slot taking the
/// `t`-th resolved (and possibly signed) value, in order.
pub open spec fn got_writes_applied(vm: Seq<u8>, plan: Seq<GotSlot>, values: Seq<u64>) -> Seq<u8>
    recommends
        plan.len() == values.len(),
    decreases plan.len(),
{
    if plan.len() == 0 {
        vm
    } else {
        got_write_applied(
            got_writes_applied(vm, plan.drop_last(), values.drop_last()),
            plan.last().addr,
            values.last(),
        )
    }
}

/// Every planned store lies inside the window.
pub open spec fn writes_in_window(plan: Seq<GotSlot>, vm_len: int) -> bool {
    forall|t: int| 0 <= t < plan.len() ==> (#[trigger] plan[t]).addr + 8 <= vm_len
}

/// No two planned stores overlap.
pub open spec fn writes_disjoint(plan: Seq<GotSlot>) -> bool {
    forall|t1: int, t2: int|
        0 <= t1 < t2 < plan.len() ==> (#[trigger] plan[t1]).addr + 8 <= (#[trigger] plan[t2]).addr
            || plan[t2].addr + 8 <= plan[t1].addr
}

/// After all stores, slot `t` holds its value.
pub open spec fn slot_holds(vm: Seq<u8>, plan: Seq<GotSlot>, values: Seq<u64>, t: int) -> bool {
    le_u64_at(got_writes_applied(vm, plan, values), plan[t].addr as int) == values[t]
}

/// Eight consecutive bytes laid down little-endian read back as the
/// value they encode.
proof fn lemma_le_u64_of_bytes(s: Seq<u8>, a: int, v: u64)
    requires
        0 <= a,
        a + 8 <= s.len(),
        forall|k: int| 0 <= k < 8 ==> s[a + k] == le_byte_of(v, k),
    ensures
        le_u64_at(s, a) == v,
{
    assert(s[a + 0] == le_byte_of(v, 0));
    assert(s[a + 1] == le_byte_of(v, 1));
    assert(s[a + 2] == le_byte_of(v, 2));
    assert(s[a + 3] == le_byte_of(v, 3));
    assert(s[a + 4] == le_byte_of(v, 4));
    assert(s[a + 5] == le_byte_of(v, 5));
    assert(s[a + 6] == le_byte_of(v, 6));
    assert(s[a + 7] == le_byte_of(v, 7));
    assert(((v >> 0u64) & 0xff) < 0x100 && ((v >> 8u64) & 0xff) < 0x100 && ((v >> 16u64) & 0xff)
        < 0x100 && ((v >> 24u64) & 0xff) < 0x100 && ((v >> 32u64) & 0xff) < 0x100 && ((v >> 40u64)
        & 0xff) < 0x100 && ((v >> 48u64) & 0xff) < 0x100 && ((v >> 56u64) & 0xff) < 0x100) by (bit_vector);
    assert(((v >> 0u64) & 0xff) + ((v >> 8u64) & 0xff) * 0x100 + ((v >> 16u64) & 0xff) * 0x1_0000 + (
    (v >> 24u64) & 0xff) * 0x100_0000 + (((v >> 32u64) & 0xff) + ((v >> 40u64) & 0xff) * 0x100 + ((v
        >> 48u64) & 0xff) * 0x1_0000 + ((v >> 56u64) & 0xff) * 0x100_0000) * 0x1_0000_0000
        == v) by (bit_vector);
}

/// After the planned stores are performed, every GOT slot holds exactly
/// the value planned for it, and the window keeps its length: what the
/// rebind stores is what is read back through each slot.
pub proof fn lemma_got_writes_store_values(vm: Seq<u8>, plan: Seq<GotSlot>, values: Seq<u64>)
    requires
        plan.len() == values.len(),
        writes_in_window(plan, vm.len() as int),
        writes_disjoint(plan),
    ensures
        got_writes_applied(vm, plan, values).len() == vm.len(),
        forall|t: int| 0 <= t < plan.len() ==> #[trigger] slot_holds(vm, plan, values, t),
    decreases plan.len(),
{
    if plan.len() > 0 {
        let pfx = plan.drop_last();
        let vfx = values.drop_last();
        let last = plan.last();
        lemma_got_writes_store_values(vm, pfx, vfx);
        let before = got_writes_applied(vm, pfx, vfx);
        let after = got_writes_applied(vm, plan, values);
        assert(after == got_write_applied(before, last.addr, values.last()));
        assert forall|t: int| 0 <= t < plan.len() implies #[trigger] slot_holds(
            vm,
            plan,
            values,
            t,
        ) by {
            if t == plan.len() - 1 {
                assert forall|k: int| 0 <= k < 8 implies after[last.addr + k] == le_byte_of(
                    values.last(),
                    k,
                ) by {}
                lemma_le_u64_of_bytes(after, last.addr as int, values.last());
            } else {
                assert(slot_holds(vm, pfx, vfx, t));
                assert(plan[t].addr + 8 <= last.addr || last.addr + 8 <= plan[t].addr);
                let at = plan[t].addr as int;
                assert(after[at + 0] == before[at + 0]);
                assert(after[at + 1] == before[at + 1]);
                assert(after[at + 2] == before[at + 2]);
                assert(after[at + 3] == before[at + 3]);
                assert(after[at + 4] == before[at + 4]);
                assert(after[at + 5] == before[at + 5]);
                assert(after[at + 6] == before[at + 6]);
                assert(after[at + 7] == before[at + 7]);
                assert(le_u64_at(after, at) == le_u64_at(before, at));
            }
        }
    }
}

/// For every GOT slot of each handled section, after rebinding, the
/// stored 64-bit value is exactly what the shell resolved for that
/// slot's symbol: some planned write covers the slot, correctly
/// derived, and once the planned stores are performed the slot reads
/// back as the value stored through it.
pub proof fn lemma_rebound_slot_value(
    vm: Seq<u8>,
    plan: Seq<GotSlot>,
    values: Seq<u64>,
    segs: Seq<Segment>,
    syms: Seq<Symbol>,
    image: Seq<u8>,
    ndylibs: int,
    k: int,
    j: int,
    i: int,
)
    requires
        plan.len() == values.len(),
        writes_in_window(plan, vm.len() as int),
        writes_disjoint(plan),
        slots_done_upto(plan, segs, syms, image, ndylibs, segs.len() as int, 0),
        section_handled(segs, k, j),
        0 <= i < sec_slot_count(segs[k].sections@[j]),
    ensures
        exists|t: int|
            0 <= t < plan.len() && slot_matches(
                #[trigger] plan[t],
                segs[k].sections@[j],
                syms,
                image,
                i,
            ) && le_u64_at(got_writes_applied(vm, plan, values), plan[t].addr as int) == values[t],
{
    assert(k < segs.len());
    assert(slot_ok_at(segs, syms, image, ndylibs, k, j, i) && slot_found(
        plan,
        segs,
        syms,
        image,
        k,
        j,
        i,
    ));
    let t = choose|t: int|
        0 <= t < plan.len() && slot_matches(#[trigger] plan[t], segs[k].sections@[j], syms, image, i);
    lemma_got_writes_store_values(vm, plan, values);
    assert(slot_holds(vm, plan, values, t));
}

/// Decides what a `dlsym` outcome means: a null address means the
/// symbol did not resolve.
pub fn resolve_outcome(addr: u64) -> (r: Result<u64, LoadError>)
    ensures
        addr == 0 ==> r == Result::<u64, LoadError>::Err(LoadError::DlsymFailed),
        addr != 0 ==> r == Result::<u64, LoadError>::Ok(addr),
{
    if addr == 0 {
        Err(LoadError::DlsymFailed)
    } else {
        Ok(addr)
    }
}

} // verus!
