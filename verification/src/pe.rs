//! Portable-executable header parsing and the signature byte checks that are
//! run against the game executable before any hook is installed.

use vstd::prelude::*;
use vstd::string::*;
use crate::text::{
    chars_of, int_error_message, push_hex, spec_hex, push_decimal, spec_decimal, join_strings, is_ws, lemma_skip_ws_bounds, lemma_split_ws_skip,
    lemma_token_end_bounds, parse_hex_range, push_char, push_hex_padded, skip_ws,
    skip_ws_from, spec_int_error_message, spec_join, spec_parse_hex, spec_hex_padded,
    spec_split_ws, split_ws_from, token_end, IntErrorKind,
};

verus! {

/// `{:02x}` of each byte, separated by single spaces.
pub open spec fn spec_hex_bytes(bytes: Seq<u8>) -> Seq<char> {
    spec_join(bytes.map_values(|b: u8| spec_hex_padded(b as nat, 2)), " "@)
}

/// Renders bytes as two-digit lower-case hex, separated by single spaces.
pub fn hex_bytes(bytes: &[u8]) -> (r: String)
    ensures
        r@ == spec_hex_bytes(bytes@),
{
    let ghost parts = bytes@.map_values(|b: u8| spec_hex_padded(b as nat, 2));
    let mut r = String::new();
    let mut i: usize = 0;
    while i < bytes.len()
        invariant
            i <= bytes.len(),
            parts == bytes@.map_values(|b: u8| spec_hex_padded(b as nat, 2)),
            r@ == spec_join(parts.take(i as int), " "@),
        decreases bytes.len() - i,
    {
        assert(parts.take(i + 1).drop_last() =~= parts.take(i as int));
        let ghost before = r@;
        if i > 0 {
            r.append(" ");
        }
        push_hex_padded(&mut r, bytes[i] as u64, 2);
        proof {
            if i == 0 {
                assert(r@ =~= spec_join(parts.take(1), " "@));
            }
        }
        i = i + 1;
    }
    assert(parts.take(bytes.len() as int) =~= parts);
    r
}

/// The message for a token that is not a hex byte.
pub open spec fn hex_byte_error(token: Seq<char>, kind: IntErrorKind) -> Seq<char> {
    "invalid hex byte "@ + token + ": "@ + spec_int_error_message(kind)
}

/// Parses each token as a hex byte; the first token that fails decides the error.
pub open spec fn parse_hex_tokens(tokens: Seq<Seq<char>>) -> Result<Seq<u8>, Seq<char>>
    decreases tokens.len(),
{
    if tokens.len() == 0 {
        Ok(seq![])
    } else {
        match spec_parse_hex(tokens[0], 255) {
            Err(kind) => Err(hex_byte_error(tokens[0], kind)),
            Ok(x) => match parse_hex_tokens(tokens.drop_first()) {
                Ok(rest) => Ok(seq![x as u8] + rest),
                Err(e) => Err(e),
            },
        }
    }
}

/// Whitespace-separated hex bytes such as `"48 8b c4"`.
pub open spec fn spec_parse_hex_bytes(text: Seq<char>) -> Result<Seq<u8>, Seq<char>> {
    parse_hex_tokens(spec_split_ws(text))
}

pub open spec fn prepend_bytes(done: Seq<u8>, rest: Result<Seq<u8>, Seq<char>>) -> Result<Seq<u8>, Seq<char>> {
    match rest {
        Ok(r) => Ok(done + r),
        Err(e) => Err(e),
    }
}

/// Parses whitespace-separated hexadecimal bytes.
pub fn parse_hex_bytes(text: &str) -> (r: Result<Vec<u8>, String>)
    ensures
        match spec_parse_hex_bytes(text@) {
            Ok(bytes) => r matches Ok(v) && v@ == bytes,
            Err(msg) => r matches Err(e) && e@ == msg,
        },
{
    let v = chars_of(text);
    let mut out: Vec<u8> = Vec::new();
    let mut pos: usize = 0;
    while pos < v.len()
        invariant
            pos <= v.len(),
            v@ == text@,
            spec_parse_hex_bytes(text@) == prepend_bytes(out@, parse_hex_tokens(split_ws_from(v@, pos as int))),
        decreases v.len() - pos,
    {
        let a = skip_ws(&v, pos);
        proof {
            lemma_split_ws_skip(v@, pos as int);
            lemma_skip_ws_bounds(v@, pos as int);
        }
        if a == v.len() {
            pos = a;
            continue;
        }
        let b = token_end(&v, a);
        proof {
            lemma_token_end_bounds(v@, a as int);
            let toks = split_ws_from(v@, a as int);
            assert(toks == seq![v@.subrange(a as int, b as int)] + split_ws_from(v@, b as int));
            assert(toks[0] == v@.subrange(a as int, b as int));
            assert(toks.drop_first() =~= split_ws_from(v@, b as int));
            assert(split_ws_from(v@, pos as int) == toks);
        }
        match parse_hex_range(&v, a, b, 255) {
            Err(kind) => {
                let mut msg = String::from_str("invalid hex byte ");
                let mut i = a;
                while i < b
                    invariant
                        a <= i <= b <= v.len(),
                        msg@ == "invalid hex byte "@ + v@.subrange(a as int, i as int),
                    decreases b - i,
                {
                    push_char(&mut msg, v[i]);
                    i = i + 1;
                    assert(msg@ =~= "invalid hex byte "@ + v@.subrange(a as int, i as int));
                }
                msg.append(": ");
                let m = int_error_message(kind);
                msg.append(m.as_str());
                return Err(msg);
            },
            Ok(x) => {
                let ghost before = out@;
                out.push(x as u8);
                proof {
                    let toks = split_ws_from(v@, a as int);
                    assert(spec_parse_hex(toks[0], 255) == Ok::<nat, IntErrorKind>(x as nat));
                    let rest = parse_hex_tokens(split_ws_from(v@, b as int));
                    assert(parse_hex_tokens(toks) == match rest {
                        Ok(r) => Ok::<Seq<u8>, Seq<char>>(seq![x as u8] + r),
                        Err(e) => Err(e),
                    });
                    match rest {
                        Ok(r) => assert(before + (seq![x as u8] + r) =~= out@ + r),
                        Err(e) => {},
                    }
                }
                pos = b;
            },
        }
    }
    proof {
        assert(split_ws_from(v@, pos as int) == Seq::<Seq<char>>::empty());
        assert(out@ + Seq::<u8>::empty() =~= out@);
    }
    Ok(out)
}


/// Little-endian 16-bit value of `b[off..off + 2]`.
pub open spec fn le_u16(b: Seq<u8>, off: int) -> nat {
    (b[off] + 256 * b[off + 1]) as nat
}

/// Little-endian 32-bit value of `b[off..off + 4]`.
pub open spec fn le_u32(b: Seq<u8>, off: int) -> nat {
    le_u16(b, off) + 65536 * le_u16(b, off + 2)
}

/// Little-endian 64-bit value of `b[off..off + 8]`.
pub open spec fn le_u64(b: Seq<u8>, off: int) -> nat {
    le_u32(b, off) + 0x1_0000_0000 * le_u32(b, off + 4)
}

/// The message of a read past the end of the image.
pub open spec fn out_of_bounds_message(offset: nat) -> Seq<char> {
    "PE read out of bounds at 0x"@ + spec_hex(offset)
}

fn out_of_bounds(offset: usize) -> (r: String)
    ensures
        r@ == out_of_bounds_message(offset as nat),
{
    let mut r = String::from_str("PE read out of bounds at 0x");
    push_hex(&mut r, offset as u64);
    r
}

/// Reads a little-endian `u16` at `offset`.
pub fn read_u16(bytes: &[u8], offset: usize) -> (r: Result<u16, String>)
    requires
        offset <= usize::MAX - 2,
    ensures
        offset + 2 <= bytes@.len() ==> r == Ok::<u16, String>(le_u16(bytes@, offset as int) as u16),
        offset + 2 > bytes@.len() ==> (r matches Err(e) && e@ == out_of_bounds_message(offset as nat)),
{
    if offset + 2 > bytes.len() {
        return Err(out_of_bounds(offset));
    }
    Ok((bytes[offset] as u16) + (bytes[offset + 1] as u16) * 256)
}

/// Reads a little-endian `u32` at `offset`.
pub fn read_u32(bytes: &[u8], offset: usize) -> (r: Result<u32, String>)
    requires
        offset <= usize::MAX - 4,
    ensures
        offset + 4 <= bytes@.len() ==> r == Ok::<u32, String>(le_u32(bytes@, offset as int) as u32),
        offset + 4 > bytes@.len() ==> (r matches Err(e) && e@ == out_of_bounds_message(offset as nat)),
{
    if offset + 4 > bytes.len() {
        return Err(out_of_bounds(offset));
    }
    Ok((bytes[offset] as u32) + (bytes[offset + 1] as u32) * 256 + (bytes[offset + 2] as u32)
        * 65536 + (bytes[offset + 3] as u32) * 16777216)
}

/// Reads a little-endian `u64` at `offset`.
pub fn read_u64(bytes: &[u8], offset: usize) -> (r: Result<u64, String>)
    requires
        offset <= usize::MAX - 8,
    ensures
        offset + 8 <= bytes@.len() ==> r == Ok::<u64, String>(le_u64(bytes@, offset as int) as u64),
        offset + 8 > bytes@.len() ==> (r matches Err(e) && e@ == out_of_bounds_message(offset as nat)),
{
    if offset + 8 > bytes.len() {
        return Err(out_of_bounds(offset));
    }
    let lo = (bytes[offset] as u64) + (bytes[offset + 1] as u64) * 256 + (bytes[offset + 2] as u64)
        * 65536 + (bytes[offset + 3] as u64) * 16777216;
    let hi = (bytes[offset + 4] as u64) + (bytes[offset + 5] as u64) * 256 + (bytes[offset + 6]
        as u64) * 65536 + (bytes[offset + 7] as u64) * 16777216;
    Ok(lo + hi * 0x1_0000_0000)
}

/// One entry of the section table.
#[derive(Clone, Copy, Debug, PartialEq, Eq, Structural)]
pub struct PeSection {
    pub virtual_address: u32,
    pub virtual_size: u32,
    pub raw_offset: u32,
    pub raw_size: u32,
}

/// The parts of a 64-bit PE image that address translation needs.
#[derive(Debug)]
pub struct PeImage {
    pub image_base: u64,
    pub sections: Vec<PeSection>,
}

impl View for PeImage {
    type V = (u64, Seq<PeSection>);

    open spec fn view(&self) -> (u64, Seq<PeSection>) {
        (self.image_base, self.sections@)
    }
}

/// The section header that starts at `off`.
pub open spec fn section_at(image: Seq<u8>, off: int) -> PeSection {
    PeSection {
        virtual_size: le_u32(image, off + 8) as u32,
        virtual_address: le_u32(image, off + 12) as u32,
        raw_size: le_u32(image, off + 16) as u32,
        raw_offset: le_u32(image, off + 20) as u32,
    }
}

/// The file offset of the `PE\0\0` signature, read from `e_lfanew`.
pub open spec fn pe_header_offset(image: Seq<u8>) -> nat {
    le_u32(image, 0x3c)
}

/// PE32+ header parsing: the image base and the section table, or the reason the image is refused.
pub open spec fn spec_pe_parse(image: Seq<u8>) -> Result<(u64, Seq<PeSection>), Seq<char>> {
    if image.len() < 0x40 || image[0] != 0x4d || image[1] != 0x5a {
        Err("invalid PE: missing MZ header"@)
    } else {
        let pe = pe_header_offset(image) as int;
        if pe + 0x108 > image.len() || image[pe] != 0x50 || image[pe + 1] != 0x45
            || image[pe + 2] != 0 || image[pe + 3] != 0 {
            Err("invalid PE: missing PE signature"@)
        } else {
            let count = le_u16(image, pe + 6);
            let count_int = count as int;
            let optional_size = le_u16(image, pe + 20);
            let optional_offset = pe + 24;
            let magic = le_u16(image, optional_offset);
            if magic != 0x20b {
                Err("unsupported PE optional header magic 0x"@ + spec_hex(magic))
            } else {
                let section_offset = optional_offset + optional_size;
                if count > 0 && section_offset + 40 * count_int > image.len() {
                    Err("invalid PE: section table truncated"@)
                } else {
                    Ok(
                        (
                            le_u64(image, optional_offset + 24) as u64,
                            Seq::new(count, |i: int| section_at(image, section_offset + 40 * i)),
                        ),
                    )
                }
            }
        }
    }
}

impl PeImage {
    /// Parses the DOS header, the PE signature, the PE32+ optional header magic
    /// and the section table of an image.
    pub fn parse(image: &[u8]) -> (r: Result<PeImage, String>)
        ensures
            r matches Ok(pe) ==> spec_pe_parse(image@) == Ok::<(u64, Seq<PeSection>), Seq<char>>(
                pe@,
            ),
            r matches Err(e) ==> spec_pe_parse(image@) == Err::<(u64, Seq<PeSection>), Seq<char>>(
                e@,
            ),
    {
        if image.len() < 0x40 || image[0] != 0x4d || image[1] != 0x5a {
            return Err(String::from_str("invalid PE: missing MZ header"));
        }
        let pe_offset = match read_u32(image, 0x3c) {
            Ok(v) => v,
            Err(e) => return Err(e),
        };
        if (pe_offset as u64) + 0x108 > (image.len() as u64) || image[pe_offset as usize] != 0x50
            || image[pe_offset as usize + 1] != 0x45 || image[pe_offset as usize + 2] != 0
            || image[pe_offset as usize + 3] != 0 {
            return Err(String::from_str("invalid PE: missing PE signature"));
        }
        let pe = pe_offset as usize;
        let section_count = match read_u16(image, pe + 6) {
            Ok(v) => v,
            Err(e) => return Err(e),
        };
        let optional_size = match read_u16(image, pe + 20) {
            Ok(v) => v,
            Err(e) => return Err(e),
        };
        let optional_offset = pe + 24;
        let magic = match read_u16(image, optional_offset) {
            Ok(v) => v,
            Err(e) => return Err(e),
        };
        if magic != 0x20b {
            let mut msg = String::from_str("unsupported PE optional header magic 0x");
            push_hex(&mut msg, magic as u64);
            return Err(msg);
        }
        let image_base = match read_u64(image, optional_offset + 24) {
            Ok(v) => v,
            Err(e) => return Err(e),
        };
        let section_offset = (optional_offset as u64) + (optional_size as u64);
        let ghost count = section_count as nat;
        let ghost expected = Seq::new(count, |i: int| section_at(image@, section_offset + 40 * i));
        let ghost outcome = if count > 0 && section_offset + 40 * count > image@.len() {
            Err::<(u64, Seq<PeSection>), Seq<char>>("invalid PE: section table truncated"@)
        } else {
            Ok::<(u64, Seq<PeSection>), Seq<char>>((image_base, expected))
        };
        assert(spec_pe_parse(image@) == outcome);
        let mut sections: Vec<PeSection> = Vec::new();
        let mut index: u16 = 0;
        while index < section_count
            invariant
                index <= section_count,
                section_offset < 0x2_0000_0000,
                expected == Seq::new(count, |i: int| section_at(image@, section_offset + 40 * i)),
                count == section_count,
                spec_pe_parse(image@) == outcome,
                outcome == if count > 0 && section_offset + 40 * count > image@.len() {
                    Err::<(u64, Seq<PeSection>), Seq<char>>("invalid PE: section table truncated"@)
                } else {
                    Ok::<(u64, Seq<PeSection>), Seq<char>>((image_base, expected))
                },
                sections@ == expected.take(index as int),
                index > 0 ==> section_offset + 40 * index <= image@.len(),
            decreases section_count - index,
        {
            let offset = section_offset + (index as u64) * 40;
            if offset + 40 > (image.len() as u64) {
                proof {
                    assert(section_offset + 40 * count > image@.len());
                }
                return Err(String::from_str("invalid PE: section table truncated"));
            }
            let o = offset as usize;
            let virtual_size = match read_u32(image, o + 8) {
                Ok(v) => v,
                Err(e) => return Err(e),
            };
            let virtual_address = match read_u32(image, o + 12) {
                Ok(v) => v,
                Err(e) => return Err(e),
            };
            let raw_size = match read_u32(image, o + 16) {
                Ok(v) => v,
                Err(e) => return Err(e),
            };
            let raw_offset = match read_u32(image, o + 20) {
                Ok(v) => v,
                Err(e) => return Err(e),
            };
            sections.push(PeSection { virtual_address, virtual_size, raw_offset, raw_size });
            proof {
                assert(sections@.last() == section_at(image@, section_offset + 40 * index));
                assert(sections@ =~= expected.take(index + 1));
            }
            index = index + 1;
        }
        proof {
            assert(sections@ =~= expected);

        }
        Ok(PeImage { image_base, sections })
    }
}


/// Outcome of translating a relative virtual address through the section table.
#[derive(Clone, Copy, Debug, PartialEq, Eq, Structural)]
pub enum RawLookup {
    /// The file offset of the address.
    Found(u32),
    /// No section maps the address to file bytes.
    Missing,
    /// The scan reached a section whose 32-bit end address or file offset does not fit in `u32`.
    Overflow,
}

/// Scan of the section table from entry `i`, in table order: the first section that
/// covers `rva` with file bytes decides.
pub open spec fn lookup_from(secs: Seq<PeSection>, rva: u32, i: int) -> RawLookup
    decreases secs.len() - i,
{
    if i < 0 || i >= secs.len() {
        RawLookup::Missing
    } else {
        let s = secs[i];
        let size: nat = if s.virtual_size >= s.raw_size {
            s.virtual_size as nat
        } else {
            s.raw_size as nat
        };
        if rva >= s.virtual_address {
            if s.virtual_address + size > u32::MAX {
                RawLookup::Overflow
            } else if rva < s.virtual_address + size {
                let offset = rva - s.virtual_address;
                if offset < s.raw_size {
                    if s.raw_offset + offset > u32::MAX {
                        RawLookup::Overflow
                    } else {
                        RawLookup::Found((s.raw_offset + offset) as u32)
                    }
                } else {
                    lookup_from(secs, rva, i + 1)
                }
            } else {
                lookup_from(secs, rva, i + 1)
            }
        } else {
            lookup_from(secs, rva, i + 1)
        }
    }
}

/// Translation of a virtual address: the distance from the image base, truncated to
/// 32 bits, looked up in the section table.
pub open spec fn spec_va_lookup(pe: (u64, Seq<PeSection>), va: u64) -> RawLookup {
    if va < pe.0 {
        RawLookup::Missing
    } else {
        lookup_from(pe.1, (va - pe.0) as u32, 0)
    }
}

impl PeImage {
    /// Scans the section table for `va`, reporting where the 32-bit sums of the scan overflow.
    pub fn lookup_va(&self, va: u64) -> (r: RawLookup)
        ensures
            r == spec_va_lookup(self@, va),
    {
        if va < self.image_base {
            return RawLookup::Missing;
        }
        let rva = (va - self.image_base) as u32;
        let mut i: usize = 0;
        while i < self.sections.len()
            invariant
                i <= self.sections@.len(),
                va >= self.image_base,
                rva == (va - self.image_base) as u32,
                lookup_from(self.sections@, rva, i as int) == spec_va_lookup(self@, va),
            decreases self.sections.len() - i,
        {
            let s = self.sections[i];
            let size = if s.virtual_size >= s.raw_size {
                s.virtual_size
            } else {
                s.raw_size
            };
            if rva >= s.virtual_address {
                if s.virtual_address > u32::MAX - size {
                    return RawLookup::Overflow;
                }
                if rva < s.virtual_address + size {
                    let offset = rva - s.virtual_address;
                    if offset < s.raw_size {
                        if s.raw_offset > u32::MAX - offset {
                            return RawLookup::Overflow;
                        }
                        return RawLookup::Found(s.raw_offset + offset);
                    }
                }
            }
            i = i + 1;
        }
        RawLookup::Missing
    }

    /// File offset of a virtual address, if a section maps it to file bytes.
    pub fn va_to_raw(&self, va: u64) -> (r: Option<usize>)
        requires
            spec_va_lookup(self@, va) != RawLookup::Overflow,
        ensures
            match spec_va_lookup(self@, va) {
                RawLookup::Found(raw) => r == Some(raw as usize),
                _ => r is None,
            },
    {
        match self.lookup_va(va) {
            RawLookup::Found(raw) => Some(raw as usize),
            _ => None,
        }
    }
}


/// `trim_start_matches("0x")` from index `i`: every leading `0x` is removed.
pub open spec fn strip_0x_from(s: Seq<char>, i: int) -> int
    decreases s.len() - i,
{
    if 0 <= i && i + 2 <= s.len() && s[i] == '0' && s[i + 1] == 'x' {
        strip_0x_from(s, i + 2)
    } else {
        i
    }
}

/// `trim_start_matches("0x")`.
pub open spec fn spec_strip_0x(s: Seq<char>) -> Seq<char> {
    s.subrange(strip_0x_from(s, 0), s.len() as int)
}

pub proof fn lemma_strip_0x_bounds(s: Seq<char>, i: int)
    requires
        0 <= i <= s.len(),
    ensures
        i <= strip_0x_from(s, i) <= s.len(),
    decreases s.len() - i,
{
    if i + 2 <= s.len() && s[i] == '0' && s[i + 1] == 'x' {
        lemma_strip_0x_bounds(s, i + 2);
    }
}

/// Index of the first character left after removing every leading `0x`.
pub fn strip_0x(v: &Vec<char>) -> (k: usize)
    ensures
        k as int == strip_0x_from(v@, 0),
        k <= v.len(),
{
    let mut k: usize = 0;
    while k < v.len() && v.len() - k >= 2 && v[k] == '0' && v[k + 1] == 'x'
        invariant
            k <= v.len(),
            strip_0x_from(v@, k as int) == strip_0x_from(v@, 0),
        decreases v.len() - k,
    {
        k = k + 2;
    }
    k
}

/// A `byte_check` object of a signature candidate: each field holds its string value,
/// or `None` where the field is missing or not a string.
#[derive(Clone, Debug)]
pub struct ByteCheck {
    pub va: Option<String>,
    pub bytes: Option<String>,
}

/// One entry of a signature group's `value` array.
#[derive(Clone, Debug)]
pub struct SignatureCandidate {
    /// The candidate's `entry` string, if it has one.
    pub entry: Option<String>,
    /// The candidate's `byte_check` object, if it has one.
    pub byte_check: Option<ByteCheck>,
}

/// One member of the signature file's `symbols` object, in key order.
#[derive(Clone, Debug)]
pub struct SignatureGroup {
    pub name: String,
    /// The group's `value` array, or `None` where the group has none.
    pub values: Option<Vec<SignatureCandidate>>,
}

/// Counts of the byte checks that were run.
#[derive(Clone, Debug)]
pub struct ByteCheckSummary {
    pub checked: usize,
    pub verified: usize,
    pub failed: usize,
    pub failures: Vec<String>,
}

/// Outcome of one byte check.
#[derive(Clone, Debug)]
pub enum ByteCheckOutcome {
    Passed,
    Failed(String),
    /// The address translation reached a section whose 32-bit sums overflow.
    Overflowed,
}

/// Spec-level outcome of one byte check.
pub enum SpecCheckOutcome {
    Passed,
    Failed(Seq<char>),
    Overflowed,
}

/// One byte check against the image: the expected bytes must be present at the file
/// offset that the virtual address translates to.
pub open spec fn spec_byte_check(image: Seq<u8>, pe: (u64, Seq<PeSection>), check: ByteCheck) -> SpecCheckOutcome {
    match check.va {
        None => SpecCheckOutcome::Failed("missing byte_check.va"@),
        Some(va_text) => match check.bytes {
            None => SpecCheckOutcome::Failed("missing byte_check.bytes"@),
            Some(bytes_text) => match spec_parse_hex_bytes(bytes_text@) {
                Err(e) => SpecCheckOutcome::Failed(e),
                Ok(expected) => match spec_parse_hex(spec_strip_0x(va_text@), u64::MAX as nat) {
                    Err(kind) => SpecCheckOutcome::Failed(
                        "invalid byte_check.va "@ + va_text@ + ": "@ + spec_int_error_message(kind),
                    ),
                    Ok(va) => match spec_va_lookup(pe, va as u64) {
                        RawLookup::Overflow => SpecCheckOutcome::Overflowed,
                        RawLookup::Missing => SpecCheckOutcome::Failed(
                            "VA "@ + va_text@ + " is outside mapped sections"@,
                        ),
                        RawLookup::Found(raw) => if raw + expected.len() > image.len() {
                            SpecCheckOutcome::Failed("VA "@ + va_text@ + " byte check extends beyond file"@)
                        } else if image.subrange(raw as int, raw + expected.len()) != expected {
                            SpecCheckOutcome::Failed(
                                "VA "@ + va_text@ + " mismatch: expected "@ + spec_hex_bytes(expected)
                                    + ", got "@ + spec_hex_bytes(
                                    image.subrange(raw as int, raw + expected.len()),
                                ),
                            )
                        } else {
                            SpecCheckOutcome::Passed
                        },
                    },
                },
            },
        },
    }
}

/// Runs one byte check, reporting where the address translation would overflow.
pub fn byte_check_outcome(image: &[u8], pe: &PeImage, check: &ByteCheck) -> (r: ByteCheckOutcome)
    ensures
        match spec_byte_check(image@, pe@, *check) {
            SpecCheckOutcome::Passed => r is Passed,
            SpecCheckOutcome::Overflowed => r is Overflowed,
            SpecCheckOutcome::Failed(m) => r matches ByteCheckOutcome::Failed(e) && e@ == m,
        },
{
    let va_text = match &check.va {
        None => return ByteCheckOutcome::Failed(String::from_str("missing byte_check.va")),
        Some(t) => t,
    };
    let bytes_text = match &check.bytes {
        None => return ByteCheckOutcome::Failed(String::from_str("missing byte_check.bytes")),
        Some(t) => t,
    };
    let expected = match parse_hex_bytes(bytes_text.as_str()) {
        Err(e) => return ByteCheckOutcome::Failed(e),
        Ok(v) => v,
    };
    let va_chars = chars_of(va_text.as_str());
    let start = strip_0x(&va_chars);
    proof {
        lemma_strip_0x_bounds(va_chars@, 0);
    }
    let va = match parse_hex_range(&va_chars, start, va_chars.len(), u64::MAX) {
        Err(kind) => {
            let mut msg = String::from_str("invalid byte_check.va ");
            msg.append(va_text.as_str());
            msg.append(": ");
            let m = int_error_message(kind);
            msg.append(m.as_str());
            return ByteCheckOutcome::Failed(msg);
        },
        Ok(x) => x,
    };
    let raw = match pe.lookup_va(va) {
        RawLookup::Overflow => return ByteCheckOutcome::Overflowed,
        RawLookup::Missing => {
            let mut msg = String::from_str("VA ");
            msg.append(va_text.as_str());
            msg.append(" is outside mapped sections");
            return ByteCheckOutcome::Failed(msg);
        },
        RawLookup::Found(raw) => raw as usize,
    };
    if expected.len() > image.len() || raw > image.len() - expected.len() {
        let mut msg = String::from_str("VA ");
        msg.append(va_text.as_str());
        msg.append(" byte check extends beyond file");
        return ByteCheckOutcome::Failed(msg);
    }
    let end = raw + expected.len();
    let mut actual: Vec<u8> = Vec::new();
    let mut same = true;
    let mut j = raw;
    assert(actual@ =~= expected@.take(0));
    while j < end
        invariant
            raw <= j <= end <= image.len(),
            end == raw + expected@.len(),
            actual@ == image@.subrange(raw as int, j as int),
            same == (actual@ == expected@.take(j - raw)),
        decreases end - j,
    {
        proof {
            if same {
                assert(actual@.push(image@[j as int]) == expected@.take(j + 1 - raw) <==> image@[j as int]
                    == expected@[j - raw]) by {
                    if image@[j as int] == expected@[j - raw] {
                        assert(actual@.push(image@[j as int]) =~= expected@.take(j + 1 - raw));
                    } else {
                        assert(actual@.push(image@[j as int])[j - raw] != expected@.take(j + 1 - raw)[j - raw]);
                    }
                }
            } else {
                assert(actual@.push(image@[j as int]) != expected@.take(j + 1 - raw)) by {
                    if actual@.push(image@[j as int]) == expected@.take(j + 1 - raw) {
                        assert(actual@ =~= expected@.take(j - raw));
                    }
                }
            }
        }
        if image[j] != expected[j - raw] {
            same = false;
        }
        actual.push(image[j]);
        j = j + 1;
        assert(actual@ =~= image@.subrange(raw as int, j as int));
    }
    assert(expected@.take(end - raw) =~= expected@);
    if !same {
        let mut msg = String::from_str("VA ");
        msg.append(va_text.as_str());
        msg.append(" mismatch: expected ");
        let e = hex_bytes(expected.as_slice());
        msg.append(e.as_str());
        msg.append(", got ");
        let a = hex_bytes(actual.as_slice());
        msg.append(a.as_str());
        return ByteCheckOutcome::Failed(msg);
    }
    ByteCheckOutcome::Passed
}

/// Verifies one byte check: `Ok` when the expected bytes are present, otherwise the reason.
pub fn verify_one_byte_check(image: &[u8], pe: &PeImage, check: &ByteCheck) -> (r: Result<(), String>)
    requires
        !(spec_byte_check(image@, pe@, *check) is Overflowed),
    ensures
        match spec_byte_check(image@, pe@, *check) {
            SpecCheckOutcome::Failed(m) => r matches Err(e) && e@ == m,
            _ => r is Ok,
        },
{
    match byte_check_outcome(image, pe, check) {
        ByteCheckOutcome::Failed(e) => Err(e),
        _ => Ok(()),
    }
}


/// A byte check to run, with the group name and the candidate label that failures are reported under.
pub struct CheckItem {
    pub group: Seq<char>,
    pub label: Seq<char>,
    pub check: ByteCheck,
}

/// The label of a candidate: its `entry`, or `<missing-entry>`.
pub open spec fn candidate_label(c: SignatureCandidate) -> Seq<char> {
    match c.entry {
        Some(e) => e@,
        None => "<missing-entry>"@,
    }
}

/// The byte checks of a group's candidates, in order; candidates without a `byte_check` are skipped.
pub open spec fn candidate_items(group: Seq<char>, cands: Seq<SignatureCandidate>) -> Seq<CheckItem>
    decreases cands.len(),
{
    if cands.len() == 0 {
        seq![]
    } else {
        let c = cands.last();
        candidate_items(group, cands.drop_last()) + match c.byte_check {
            Some(bc) => seq![CheckItem { group, label: candidate_label(c), check: bc }],
            None => seq![],
        }
    }
}

pub open spec fn group_items(g: SignatureGroup) -> Seq<CheckItem> {
    match g.values {
        Some(v) => candidate_items(g.name@, v@),
        None => seq![],
    }
}

/// Every byte check of every group, in order.
pub open spec fn all_items(groups: Seq<SignatureGroup>) -> Seq<CheckItem>
    decreases groups.len(),
{
    if groups.len() == 0 {
        seq![]
    } else {
        all_items(groups.drop_last()) + group_items(groups.last())
    }
}

/// The failure lines of the checks, in order: `group:label: reason`.
pub open spec fn failure_lines(image: Seq<u8>, pe: (u64, Seq<PeSection>), items: Seq<CheckItem>) -> Seq<Seq<char>>
    decreases items.len(),
{
    if items.len() == 0 {
        seq![]
    } else {
        let it = items.last();
        failure_lines(image, pe, items.drop_last()) + match spec_byte_check(image, pe, it.check) {
            SpecCheckOutcome::Failed(m) => seq![it.group + ":"@ + it.label + ": "@ + m],
            _ => seq![],
        }
    }
}

/// No byte check of the list reaches an overflowing address translation.
pub open spec fn items_in_range(image: Seq<u8>, pe: (u64, Seq<PeSection>), items: Seq<CheckItem>) -> bool {
    forall|i: int| 0 <= i < items.len() ==> !(#[trigger] spec_byte_check(image, pe, items[i].check) is Overflowed)
}

/// The byte checks of the groups stay clear of overflowing address translations
/// (trivially so when the image does not parse).
pub open spec fn signature_checks_in_range(image: Seq<u8>, groups: Seq<SignatureGroup>) -> bool {
    match spec_pe_parse(image) {
        Ok(pe) => items_in_range(image, pe, all_items(groups)),
        Err(_) => true,
    }
}

/// Result of running every byte check: the number of checks when all pass.
pub open spec fn spec_verify_signature_bytes(image: Seq<u8>, groups: Seq<SignatureGroup>) -> Result<nat, Seq<char>> {
    match spec_pe_parse(image) {
        Err(e) => Err(e),
        Ok(pe) => {
            let items = all_items(groups);
            let failures = failure_lines(image, pe, items);
            if failures.len() != 0 {
                Err(
                    spec_decimal(failures.len()) + " of "@ + spec_decimal(items.len())
                        + " signature byte checks failed: "@ + spec_join(failures, "; "@),
                )
            } else {
                Ok(items.len())
            }
        },
    }
}

pub proof fn lemma_failure_lines_push(image: Seq<u8>, pe: (u64, Seq<PeSection>), items: Seq<CheckItem>, it: CheckItem)
    ensures
        failure_lines(image, pe, items.push(it)) == failure_lines(image, pe, items) + match spec_byte_check(image, pe, it.check) {
            SpecCheckOutcome::Failed(m) => seq![it.group + ":"@ + it.label + ": "@ + m],
            _ => seq![],
        },
{
    assert(items.push(it).drop_last() =~= items);
}

/// `a` is an initial segment of `b`.
pub open spec fn is_prefix<T>(a: Seq<T>, b: Seq<T>) -> bool {
    a.len() <= b.len() && b.take(a.len() as int) == a
}

pub proof fn lemma_prefix_trans<T>(a: Seq<T>, b: Seq<T>, c: Seq<T>)
    requires
        is_prefix(a, b),
        is_prefix(b, c),
    ensures
        is_prefix(a, c),
{
    assert(c.take(a.len() as int) =~= c.take(b.len() as int).take(a.len() as int));
}

pub proof fn lemma_prefix_append<T>(p: Seq<T>, a: Seq<T>, b: Seq<T>)
    requires
        is_prefix(a, b),
    ensures
        is_prefix(p + a, p + b),
{
    assert((p + b).take((p + a).len() as int) =~= p + b.take(a.len() as int));
}

pub proof fn lemma_candidate_items_prefix(name: Seq<char>, v: Seq<SignatureCandidate>, j: int, k: int)
    requires
        0 <= j <= k <= v.len(),
    ensures
        is_prefix(candidate_items(name, v.take(j)), candidate_items(name, v.take(k))),
    decreases k - j,
{
    if j < k {
        lemma_candidate_items_prefix(name, v, j, k - 1);
        assert(v.take(k).drop_last() =~= v.take(k - 1));
        let a = candidate_items(name, v.take(j));
        let b = candidate_items(name, v.take(k - 1));
        let c = candidate_items(name, v.take(k));
        assert(c.take(b.len() as int) =~= b);
        lemma_prefix_trans(a, b, c);
    } else {
        assert(candidate_items(name, v.take(k)).take(candidate_items(name, v.take(j)).len() as int)
            =~= candidate_items(name, v.take(j)));
    }
}

pub proof fn lemma_all_items_prefix(groups: Seq<SignatureGroup>, j: int, k: int)
    requires
        0 <= j <= k <= groups.len(),
    ensures
        is_prefix(all_items(groups.take(j)), all_items(groups.take(k))),
    decreases k - j,
{
    if j < k {
        lemma_all_items_prefix(groups, j, k - 1);
        assert(groups.take(k).drop_last() =~= groups.take(k - 1));
        let a = all_items(groups.take(j));
        let b = all_items(groups.take(k - 1));
        let c = all_items(groups.take(k));
        assert(c.take(b.len() as int) =~= b);
        lemma_prefix_trans(a, b, c);
    } else {
        assert(all_items(groups.take(k)).take(all_items(groups.take(j)).len() as int) =~= all_items(
            groups.take(j),
        ));
    }
}

/// Runs every byte check of the signature groups against the image.
pub fn verify_signature_bytes(image: &[u8], groups: &Vec<SignatureGroup>) -> (r: Result<ByteCheckSummary, String>)
    requires
        signature_checks_in_range(image@, groups@),
        all_items(groups@).len() <= usize::MAX,
    ensures
        r matches Ok(s) ==> spec_verify_signature_bytes(image@, groups@) == Ok::<nat, Seq<char>>(s.checked as nat)
            && s.verified == s.checked && s.failed == 0 && s.failures@.len() == 0,
        r matches Err(e) ==> spec_verify_signature_bytes(image@, groups@) == Err::<nat, Seq<char>>(e@),
{
    let pe = match PeImage::parse(image) {
        Ok(pe) => pe,
        Err(e) => return Err(e),
    };
    let ghost all = all_items(groups@);
    proof {
        assert(groups@.take(groups@.len() as int) =~= groups@);
        assert(groups@.take(0) =~= Seq::<SignatureGroup>::empty());
        assert(all.take(0) =~= Seq::<CheckItem>::empty());
    }
    let mut checked: usize = 0;
    let mut verified: usize = 0;
    let mut failures: Vec<String> = Vec::new();
    let mut gi: usize = 0;
    while gi < groups.len()
        invariant
            gi <= groups.len(),
            all == all_items(groups@),
            all == all_items(groups@.take(groups@.len() as int)),
            all.len() <= usize::MAX,
            items_in_range(image@, pe@, all),
            spec_pe_parse(image@) == Ok::<(u64, Seq<PeSection>), Seq<char>>(pe@),
            is_prefix(all_items(groups@.take(gi as int)), all),
            all_items(groups@.take(gi as int)).len() == checked,
            failures@.map_values(|f: String| f@) == failure_lines(image@, pe@, all_items(groups@.take(gi as int))),
            verified + failures@.len() == checked,
        decreases groups.len() - gi,
    {
        let ghost prefix = all_items(groups@.take(gi as int));
        proof {
            lemma_all_items_prefix(groups@, gi + 1, groups@.len() as int);
            assert(groups@.take(gi + 1).drop_last() =~= groups@.take(gi as int));
            assert(all_items(groups@.take(gi + 1)) == prefix + group_items(groups@[gi as int]));
        }
        let group = &groups[gi];
        if let Some(values) = &group.values {
            let ghost name = group.name@;
            proof {
                assert(values@.take(values@.len() as int) =~= values@);
            }
            let mut ci: usize = 0;
            while ci < values.len()
                invariant
                    ci <= values.len(),
                    name == group.name@,
                    all.len() <= usize::MAX,
                    items_in_range(image@, pe@, all),
                    is_prefix(prefix + candidate_items(name, values@), all),
                    values@.take(values@.len() as int) == values@,
                    (prefix + candidate_items(name, values@.take(ci as int))).len() == checked,
                    failures@.map_values(|f: String| f@) == failure_lines(image@, pe@, prefix + candidate_items(name, values@.take(ci as int))),
                    verified + failures@.len() == checked,
                decreases values.len() - ci,
            {
                let ghost cur = prefix + candidate_items(name, values@.take(ci as int));
                proof {
                    assert(values@.take(ci + 1).drop_last() =~= values@.take(ci as int));
                    lemma_candidate_items_prefix(name, values@, ci + 1, values@.len() as int);
                    lemma_prefix_append(prefix, candidate_items(name, values@.take(ci + 1)), candidate_items(name, values@));
                    lemma_prefix_trans(prefix + candidate_items(name, values@.take(ci + 1)), prefix + candidate_items(name, values@), all);
                }
                let cand = &values[ci];
                if let Some(bc) = &cand.byte_check {
                    let ghost it = CheckItem { group: name, label: candidate_label(*cand), check: *bc };
                    proof {
                        assert(candidate_items(name, values@.take(ci + 1)) =~= candidate_items(name, values@.take(ci as int)).push(it));
                        assert(cur.push(it) =~= prefix + candidate_items(name, values@.take(ci + 1)));
                        lemma_failure_lines_push(image@, pe@, cur, it);
                        assert(all.take(checked + 1) == cur.push(it));
                        assert(all.take(checked + 1)[checked as int] == all[checked as int]);
                        assert(all[checked as int] == it);
                        assert(!(spec_byte_check(image@, pe@, all[checked as int].check) is Overflowed));
                    }
                    checked = checked + 1;
                    match byte_check_outcome(image, &pe, bc) {
                        ByteCheckOutcome::Failed(error) => {
                            let mut line = String::new();
                            line.append(group.name.as_str());
                            line.append(":");
                            match &cand.entry {
                                Some(e) => line.append(e.as_str()),
                                None => line.append("<missing-entry>"),
                            }
                            line.append(": ");
                            line.append(error.as_str());
                            failures.push(line);
                            proof {
                                assert(failures@.map_values(|f: String| f@) =~= failure_lines(image@, pe@, cur.push(it)));
                            }
                        },
                        _ => {
                            verified = verified + 1;
                        },
                    }
                } else {
                    proof {
                        assert(candidate_items(name, values@.take(ci + 1)) =~= candidate_items(name, values@.take(ci as int)));
                    }
                }
                ci = ci + 1;
            }
        } else {
            proof {
                assert(prefix + group_items(groups@[gi as int]) =~= prefix);
            }
        }
        gi = gi + 1;
    }
    proof {
        lemma_failure_lines_len(image@, pe@, all);
        assert(failures@.map_values(|f: String| f@).len() == failures@.len());
    }
    if failures.len() != 0 {
        let mut msg = String::new();
        push_decimal(&mut msg, failures.len() as u64);
        msg.append(" of ");
        push_decimal(&mut msg, checked as u64);
        msg.append(" signature byte checks failed: ");
        let joined = join_strings(&failures, "; ");
        msg.append(joined.as_str());
        return Err(msg);
    }
    Ok(ByteCheckSummary { checked, verified, failed: 0, failures })
}

pub proof fn lemma_failure_lines_len(image: Seq<u8>, pe: (u64, Seq<PeSection>), items: Seq<CheckItem>)
    ensures
        failure_lines(image, pe, items).len() <= items.len(),
    decreases items.len(),
{
    if items.len() > 0 {
        lemma_failure_lines_len(image, pe, items.drop_last());
    }
}


/// Whether `verify_signature_bytes` can run on these inputs: no byte check reaches an
/// overflowing address translation and the number of checks fits in `usize`.
pub fn signature_checks_runnable(image: &[u8], groups: &Vec<SignatureGroup>) -> (r: bool)
    ensures
        r == (signature_checks_in_range(image@, groups@) && all_items(groups@).len() <= usize::MAX),
{
    let ghost all = all_items(groups@);
    proof {
        assert(groups@.take(groups@.len() as int) =~= groups@);
        assert(groups@.take(0) =~= Seq::<SignatureGroup>::empty());
        assert(all.take(0) =~= Seq::<CheckItem>::empty());
    }
    let pe_opt = PeImage::parse(image);
    let mut count: usize = 0;
    let mut gi: usize = 0;
    while gi < groups.len()
        invariant
            gi <= groups.len(),
            all == all_items(groups@),
            all == all_items(groups@.take(groups@.len() as int)),
            is_prefix(all_items(groups@.take(gi as int)), all),
            all_items(groups@.take(gi as int)).len() == count,
            pe_opt matches Ok(pe) ==> spec_pe_parse(image@) == Ok::<(u64, Seq<PeSection>), Seq<char>>(pe@)
                && forall|i: int| 0 <= i < count ==> !(#[trigger] spec_byte_check(image@, pe@, all[i].check) is Overflowed),
            pe_opt is Err ==> spec_pe_parse(image@) is Err,
        decreases groups.len() - gi,
    {
        let ghost prefix = all_items(groups@.take(gi as int));
        proof {
            lemma_all_items_prefix(groups@, gi + 1, groups@.len() as int);
            assert(groups@.take(gi + 1).drop_last() =~= groups@.take(gi as int));
            assert(all_items(groups@.take(gi + 1)) == prefix + group_items(groups@[gi as int]));
        }
        let group = &groups[gi];
        if let Some(values) = &group.values {
            let ghost name = group.name@;
            proof {
                assert(values@.take(values@.len() as int) =~= values@);
            }
            let mut ci: usize = 0;
            while ci < values.len()
                invariant
                    ci <= values.len(),
                    name == group.name@,
                    is_prefix(prefix + candidate_items(name, values@), all),
                    values@.take(values@.len() as int) == values@,
                    (prefix + candidate_items(name, values@.take(ci as int))).len() == count,
                    all == all_items(groups@),
                    pe_opt matches Ok(pe) ==> spec_pe_parse(image@) == Ok::<(u64, Seq<PeSection>), Seq<char>>(pe@),
                    pe_opt is Err ==> spec_pe_parse(image@) is Err,
                    pe_opt matches Ok(pe) ==> forall|i: int| 0 <= i < count ==> !(#[trigger] spec_byte_check(image@, pe@, all[i].check) is Overflowed),
                decreases values.len() - ci,
            {
                let ghost cur = prefix + candidate_items(name, values@.take(ci as int));
                proof {
                    assert(values@.take(ci + 1).drop_last() =~= values@.take(ci as int));
                    lemma_candidate_items_prefix(name, values@, ci + 1, values@.len() as int);
                    lemma_prefix_append(prefix, candidate_items(name, values@.take(ci + 1)), candidate_items(name, values@));
                    lemma_prefix_trans(prefix + candidate_items(name, values@.take(ci + 1)), prefix + candidate_items(name, values@), all);
                }
                let cand = &values[ci];
                if let Some(bc) = &cand.byte_check {
                    let ghost it = CheckItem { group: name, label: candidate_label(*cand), check: *bc };
                    proof {
                        assert(candidate_items(name, values@.take(ci + 1)) =~= candidate_items(name, values@.take(ci as int)).push(it));
                        assert(cur.push(it) =~= prefix + candidate_items(name, values@.take(ci + 1)));
                        assert(all.take(count + 1) == cur.push(it));
                        assert(all.take(count + 1)[count as int] == all[count as int]);
                        assert(all[count as int] == it);
                    }
                    if count == usize::MAX {
                        return false;
                    }
                    if let Ok(pe) = &pe_opt {
                        if let ByteCheckOutcome::Overflowed = byte_check_outcome(image, pe, bc) {
                            proof {
                                assert(all[count as int].check == *bc);
                                assert(spec_byte_check(image@, pe@, all[count as int].check) is Overflowed);
                                assert(!items_in_range(image@, pe@, all));
                            }
                            return false;
                        }
                    }
                    count = count + 1;
                } else {
                    proof {
                        assert(candidate_items(name, values@.take(ci + 1)) =~= candidate_items(name, values@.take(ci as int)));
                    }
                }
                ci = ci + 1;
            }
        } else {
            proof {
                assert(prefix + group_items(groups@[gi as int]) =~= prefix);
            }
        }
        gi = gi + 1;
    }
    true
}


/// The image base recorded in the optional header of a PE32+ image.
pub fn pe_image_base(image: &[u8]) -> (r: Result<u64, String>)
    ensures
        r matches Ok(b) ==> spec_pe_parse(image@) matches Ok(pe) && pe.0 == b,
        r matches Err(e) ==> spec_pe_parse(image@) == Err::<(u64, Seq<PeSection>), Seq<char>>(e@),
{
    match PeImage::parse(image) {
        Ok(pe) => Ok(pe.image_base),
        Err(e) => Err(e),
    }
}

} // verus!
