//! Byte-level helpers: little- and big-endian field reads, fixed-field name
//! comparison, C-string extraction, and the arm64 pointer tag strip.

use vstd::prelude::*;

verus! {

/// The little-endian 16-bit value stored at byte offset `i` of `s`.
pub open spec fn le_u16_at(s: Seq<u8>, i: int) -> u16
    recommends
        0 <= i,
        i + 2 <= s.len(),
{
    (s[i] + s[i + 1] * 0x100) as u16
}

/// The little-endian 32-bit value stored at byte offset `i` of `s`.
pub open spec fn le_u32_at(s: Seq<u8>, i: int) -> u32
    recommends
        0 <= i,
        i + 4 <= s.len(),
{
    (s[i] + s[i + 1] * 0x100 + s[i + 2] * 0x1_0000 + s[i + 3] * 0x100_0000) as u32
}

/// The little-endian 64-bit value stored at byte offset `i` of `s`.
pub open spec fn le_u64_at(s: Seq<u8>, i: int) -> u64
    recommends
        0 <= i,
        i + 8 <= s.len(),
{
    (le_u32_at(s, i) + le_u32_at(s, i + 4) * 0x1_0000_0000) as u64
}

/// The big-endian 32-bit value stored at byte offset `i` of `s`.
/// Fat container headers are big-endian.
pub open spec fn be_u32_at(s: Seq<u8>, i: int) -> u32
    recommends
        0 <= i,
        i + 4 <= s.len(),
{
    (s[i] * 0x100_0000 + s[i + 1] * 0x1_0000 + s[i + 2] * 0x100 + s[i + 3]) as u32
}

/// Reads the little-endian 16-bit field at `off`.
pub fn read_le_u16(s: &[u8], off: usize) -> (r: u16)
    requires
        off + 2 <= s@.len(),
    ensures
        r == le_u16_at(s@, off as int),
{
    let b0 = s[off] as u16;
    let b1 = s[off + 1] as u16;
    b0 + b1 * 0x100
}

/// Reads the little-endian 32-bit field at `off`.
pub fn read_le_u32(s: &[u8], off: usize) -> (r: u32)
    requires
        off + 4 <= s@.len(),
    ensures
        r == le_u32_at(s@, off as int),
{
    let b0 = s[off] as u32;
    let b1 = s[off + 1] as u32;
    let b2 = s[off + 2] as u32;
    let b3 = s[off + 3] as u32;
    b0 + b1 * 0x100 + b2 * 0x1_0000 + b3 * 0x100_0000
}

/// Reads the little-endian 64-bit field at `off`.
pub fn read_le_u64(s: &[u8], off: usize) -> (r: u64)
    requires
        off + 8 <= s@.len(),
    ensures
        r == le_u64_at(s@, off as int),
{
    let n = s.len();
    assert(off + 4 <= n);
    let lo = read_le_u32(s, off) as u64;
    let hi = read_le_u32(s, off + 4) as u64;
    lo + hi * 0x1_0000_0000
}

/// Reads the big-endian 32-bit field at `off`.
pub fn read_be_u32(s: &[u8], off: usize) -> (r: u32)
    requires
        off + 4 <= s@.len(),
    ensures
        r == be_u32_at(s@, off as int),
{
    let b0 = s[off] as u32;
    let b1 = s[off + 1] as u32;
    let b2 = s[off + 2] as u32;
    let b3 = s[off + 3] as u32;
    b0 * 0x100_0000 + b1 * 0x1_0000 + b2 * 0x100 + b3
}

/// Copies the `n` bytes starting at `start` out of `s`.
pub fn read_bytes(s: &[u8], start: usize, n: usize) -> (r: Vec<u8>)
    requires
        start + n <= s@.len(),
    ensures
        r@ == s@.subrange(start as int, start + n),
{
    let slen = s.len();
    let mut v: Vec<u8> = Vec::new();
    let mut j: usize = 0;
    while j < n
        invariant
            j <= n,
            start + n <= slen == s@.len(),
            v@ =~= s@.subrange(start as int, start + j),
        decreases n - j,
    {
        let b = s[start + j];
        v.push(b);
        assert(v@ =~= s@.subrange(start as int, start + j + 1));
        j += 1;
    }
    assert(v@ =~= s@.subrange(start as int, start + n));
    v
}

/// Whether `name` is a prefix of the fixed 16-byte name field `segname`.
pub open spec fn name_has_prefix(segname: Seq<u8>, name: Seq<u8>) -> bool {
    name.len() <= segname.len() && segname.take(name.len() as int) == name
}

/// Prefix comparison on a fixed, zero-padded 16-byte name field, as Mach-O
/// segment and section names are matched.
pub fn segment_name_eq(segname: &[u8], name: &[u8]) -> (r: bool)
    ensures
        r == name_has_prefix(segname@, name@),
{
    if name.len() > segname.len() {
        assert(!name_has_prefix(segname@, name@));
        return false;
    }
    let n = name.len();
    let mut i: usize = 0;
    while i < n
        invariant
            0 <= i <= n,
            n == name@.len() <= segname@.len(),
            forall|j: int| 0 <= j < i ==> segname@[j] == name@[j],
        decreases n - i,
    {
        if segname[i] != name[i] {
            assert(segname@.take(n as int)[i as int] != name@[i as int]);
            return false;
        }
        i += 1;
    }
    assert(segname@.take(n as int) =~= name@);
    true
}

/// The arm64 top-nibble strip: a pointer whose four highest bits are not
/// all zero is masked down to its low 60 bits.
pub open spec fn spec_strip_tag(p: u64) -> u64 {
    if p & 0xF000_0000_0000_0000 != 0 {
        p & 0x0FFF_FFFF_FFFF_FFFF
    } else {
        p
    }
}

/// Strips the arm64 top-nibble tag bits from a pointer read out of the
/// image.
pub fn strip_tag(p: u64) -> (r: u64)
    ensures
        r == spec_strip_tag(p),
{
    if p & 0xF000_0000_0000_0000 != 0 {
        p & 0x0FFF_FFFF_FFFF_FFFF
    } else {
        p
    }
}

/// Stripping the tag from an already-untagged pointer is the identity, and
/// stripping twice is the same as stripping once.
pub proof fn lemma_strip_tag_identity(p: u64)
    ensures
        p & 0xF000_0000_0000_0000 == 0 ==> spec_strip_tag(p) == p,
        spec_strip_tag(spec_strip_tag(p)) == spec_strip_tag(p),
{
    assert((p & 0x0FFF_FFFF_FFFF_FFFF) & 0xF000_0000_0000_0000 == 0) by (bit_vector);
}

/// The 64-bit pointer value encoded at byte offset `offset` of `data`,
/// with the arm64 tag bits stripped.
pub open spec fn spec_read_ptr(data: Seq<u8>, offset: int) -> u64 {
    spec_strip_tag(le_u64_at(data, offset))
}

/// Reads the pre-linker pointer value stored at `offset`: an 8-byte
/// cell of a 64-bit image, a 4-byte cell otherwise, with the arm64
/// top-nibble tag bits stripped either way.
pub fn read_ptr(is_64: bool, data: &[u8], offset: usize) -> (r: u64)
    requires
        offset + (if is_64 { 8int } else { 4int }) <= data@.len(),
    ensures
        is_64 ==> r == spec_read_ptr(data@, offset as int),
        !is_64 ==> r == spec_strip_tag(le_u32_at(data@, offset as int) as u64),
{
    let ptr = if is_64 {
        read_le_u64(data, offset)
    } else {
        read_le_u32(data, offset) as u64
    };
    strip_tag(ptr)
}

/// A NUL-terminated byte string starting at `start` in `s`, searched up to
/// the exclusive bound `end`: the bytes before the first NUL, or `None` if
/// no NUL occurs in `[start, end)`.
pub open spec fn spec_cstr_at(s: Seq<u8>, start: int, end: int) -> Option<Seq<u8>> {
    if exists|k: int| start <= k < end && s[k] == 0 {
        let k = choose|k: int| start <= k < end && s[k] == 0 && (forall|j: int|
            start <= j < k ==> s[j] != 0);
        Some(s.subrange(start, k))
    } else {
        None
    }
}

/// Extracts the NUL-terminated string at `start`, reading no further than
/// `end`.  Dylib path names are stored this way inside load commands.
pub fn read_cstr(s: &[u8], start: usize, end: usize) -> (r: Option<Vec<u8>>)
    requires
        start <= end <= s@.len(),
    ensures
        match r {
            Some(v) => Some(v@) == spec_cstr_at(s@, start as int, end as int),
            None => spec_cstr_at(s@, start as int, end as int) is None,
        },
{
    let mut i: usize = start;
    while i < end
        invariant
            start <= i <= end <= s@.len(),
            forall|j: int| start <= j < i ==> s@[j] != 0,
        decreases end - i,
    {
        if s[i] == 0 {
            let mut v: Vec<u8> = Vec::new();
            let mut j: usize = start;
            while j < i
                invariant
                    start <= j <= i < end <= s@.len(),
                    s@[i as int] == 0,
                    forall|k: int| start <= k < i ==> s@[k] != 0,
                    v@ =~= s@.subrange(start as int, j as int),
                decreases i - j,
            {
                let b = s[j];
                v.push(b);
                assert(v@ =~= s@.subrange(start as int, j + 1));
                j += 1;
            }
            proof {
                let k = choose|k: int| start <= k < end && s@[k] == 0 && (forall|j2: int|
                    start <= j2 < k ==> s@[j2] != 0);
                assert(s@[i as int] == 0 && (forall|j2: int| start <= j2 < i ==> s@[j2] != 0));
                assert(k == i) by {
                    if k < i {
                        assert(s@[k] != 0);
                    }
                    if i < k {
                        assert(s@[i as int] != 0);
                    }
                }
            }
            return Some(v);
        }
        i += 1;
    }
    None
}

} // verus!
