//! Helpers around reads of the game's memory: which addresses are worth
//! reading, whether a queried memory region allows a read, and the hexadecimal
//! renderings used in the debug output.

use vstd::prelude::*;
use vstd::string::*;
use crate::text::{
    chars_of, parse_hex_range, push_hex, skip_ws, skip_ws_from, spec_hex, spec_parse_hex,
    spec_trim, trim_end, trim_end_at, lemma_skip_ws_bounds, IntErrorKind,
};
use crate::pe::{spec_strip_0x, strip_0x_from, lemma_strip_0x_bounds};

verus! {

/// Whether a value lies in the user-mode address range of a 64-bit process.
pub fn pointer_value_looks_process_address(value: u64) -> (r: bool)
    ensures
        r == (0x10000 <= value < 0x0000_8000_0000_0000),
{
    value >= 0x10000 && value < 0x0000_8000_0000_0000
}

/// `0` for zero, otherwise `0x` and the lower-case hex digits.
pub open spec fn spec_hex_or_zero(value: nat) -> Seq<char> {
    if value == 0 {
        "0"@
    } else {
        "0x"@ + spec_hex(value)
    }
}

/// Renders a handle: `0` for zero, otherwise `0x` and hex digits.
pub fn format_hex_or_zero(value: u64) -> (r: String)
    ensures
        r@ == spec_hex_or_zero(value as nat),
{
    if value == 0 {
        String::from_str("0")
    } else {
        let mut r = String::from_str("0x");
        push_hex(&mut r, value);
        r
    }
}

/// Renders an address: `0` for zero, otherwise `0x` and hex digits.
pub fn format_hex_usize(value: usize) -> (r: String)
    ensures
        r@ == spec_hex_or_zero(value as nat),
{
    format_hex_or_zero(value as u64)
}

/// `0x` and the lower-case hex digits.
pub fn hex_u64(value: u64) -> (r: String)
    ensures
        r@ == "0x"@ + spec_hex(value as nat),
{
    let mut r = String::from_str("0x");
    push_hex(&mut r, value);
    r
}

/// The text left after trimming and removing one leading `rva:`.
pub open spec fn strip_rva(t: Seq<char>) -> Seq<char> {
    if t.len() >= 4 && t.take(4) == "rva:"@ {
        t.skip(4)
    } else {
        t
    }
}

/// A hexadecimal address such as ` rva:0x1a2b `: surrounding whitespace, one `rva:` and
/// any leading `0x` are ignored; the rest must parse as a base-16 `u64`.
pub open spec fn spec_parse_hex_u64_local(s: Seq<char>) -> Option<u64> {
    match spec_parse_hex(spec_strip_0x(strip_rva(spec_trim(s))), u64::MAX as nat) {
        Ok(v) => Some(v as u64),
        Err(_) => None,
    }
}

/// Parses a hexadecimal address.
pub fn parse_hex_u64_local(value: &str) -> (r: Option<u64>)
    ensures
        r == spec_parse_hex_u64_local(value@),
{
    let v = chars_of(value);
    let a = skip_ws(&v, 0);
    let b = trim_end(&v, a, v.len());
    let ghost t = v@.subrange(a as int, b as int);
    proof {
        lemma_skip_ws_bounds(v@, 0);
        let u = v@.subrange(a as int, v@.len() as int);
        assert(u.subrange(0, trim_end_at(u, u.len() as int)) =~= t);
        assert(spec_trim(value@) == t);
    }
    let mut start = a;
    if b - a >= 4 && v[a] == 'r' && v[a + 1] == 'v' && v[a + 2] == 'a' && v[a + 3] == ':' {
        start = a + 4;
        proof {
            reveal_strlit("rva:");
            assert(t.take(4) =~= "rva:"@);
            assert(strip_rva(t) =~= v@.subrange(start as int, b as int));
        }
    } else {
        proof {
            reveal_strlit("rva:");
            if t.len() >= 4 && t.take(4) == "rva:"@ {
                assert(t.take(4)[0] == 'r');
                assert(t.take(4)[1] == 'v');
                assert(t.take(4)[2] == 'a');
                assert(t.take(4)[3] == ':');
            }
            assert(strip_rva(t) =~= v@.subrange(start as int, b as int));
        }
    }
    let ghost u = v@.subrange(start as int, b as int);
    let mut k = start;
    while k < b && b - k >= 2 && v[k] == '0' && v[k + 1] == 'x'
        invariant
            start <= k <= b <= v@.len(),
            u == v@.subrange(start as int, b as int),
            strip_0x_from(u, k - start) == strip_0x_from(u, 0),
        decreases b - k,
    {
        k = k + 2;
    }
    proof {
        lemma_strip_0x_bounds(u, 0);
        assert(spec_strip_0x(u) =~= v@.subrange(k as int, b as int));
    }
    match parse_hex_range(&v, k, b, u64::MAX) {
        Ok(x) => Some(x),
        Err(_) => None,
    }
}

/// The module base of a module handle: `None` for a null handle.
pub fn module_base_from_handle(handle: usize) -> (r: Option<u64>)
    ensures
        r == (if handle == 0 { None } else { Some(handle as u64) }),
{
    if handle == 0 {
        None
    } else {
        Some(handle as u64)
    }
}

/// `MEM_COMMIT`: the region's pages are committed.
pub open spec fn mem_commit() -> u32 {
    0x1000
}

/// What a memory query reported about the region that holds an address.
pub struct MemoryRegion {
    pub base_address: usize,
    pub region_size: usize,
    pub state: u32,
    pub protect: u32,
}

/// A read of `len` bytes at `address` is allowed when the address is not null, `len` is not
/// zero, the query succeeded, the region is committed, neither `PAGE_NOACCESS` (0x01) nor
/// `PAGE_GUARD` (0x100) is set, and the bytes lie inside the region.
pub open spec fn spec_region_allows_read(address: usize, len: usize, region: Option<MemoryRegion>) -> bool {
    address != 0 && len != 0 && match region {
        None => false,
        Some(info) => info.state == mem_commit() && info.protect & 0x01 == 0 && info.protect & 0x100 == 0
            && address >= info.base_address && address - info.base_address + len <= usize::MAX
            && address - info.base_address + len <= info.region_size,
    }
}

/// Whether the queried region allows reading `len` bytes at `address`.
pub fn region_allows_read(address: usize, len: usize, region: Option<MemoryRegion>) -> (r: bool)
    ensures
        r == spec_region_allows_read(address, len, region),
{
    if address == 0 || len == 0 {
        return false;
    }
    let info = match region {
        None => return false,
        Some(info) => info,
    };
    if info.state != 0x1000 {
        return false;
    }
    if info.protect & 0x01 != 0 || info.protect & 0x100 != 0 {
        return false;
    }
    let offset = match address.checked_sub(info.base_address) {
        None => return false,
        Some(o) => o,
    };
    match offset.checked_add(len) {
        Some(end) => end <= info.region_size,
        None => false,
    }
}


/// Without a memory query, a read is only refused for a null address or an empty range.
pub fn range_is_plausible(address: usize, len: usize) -> (r: bool)
    ensures
        r == (address != 0 && len != 0),
{
    address != 0 && len != 0
}

} // verus!
