//! MPK archives: the header and entry records, and the paths entries are
//! extracted to.
use vstd::prelude::*;

use crate::format::{le32, lossy_utf8, read_u32_le, spec_u32_le, utf8_lossy};
use crate::il::{push_joined_strings, strings_view};
use crate::text::{ascii_lower, dec_digits, join, push_char, push_dec_u64, str_eq, to_ascii_lowercase, to_string, zero_pad};

verus! {

broadcast use vstd::seq_lib::lemma_seq_contains_after_push;

pub const MPK_HEADER_SIZE: u64 = 0x40;

pub const MPK_ENTRY_SIZE: u64 = 0x100;

/// The fields after the `MPK\0` magic.
#[derive(Debug, Clone, Copy, PartialEq, Eq)]
pub struct MpkHeader {
    pub version: u32,
    pub entry_count: u32,
    pub reserved: u32,
}

/// Why an archive cannot be extracted.
#[derive(Debug, Clone, Copy, PartialEq, Eq)]
pub enum MpkError {
    /// The first four bytes are not `MPK\0`.
    BadMagic { magic: [u8; 4] },
    /// An entry's data does not lie inside the archive.
    EntryOutOfBounds { index: u32, offset: u64, size: u64, archive_size: u64 },
}

pub open spec fn is_mpk_magic(b: Seq<u8>) -> bool {
    b[0] == 0x4D && b[1] == 0x50 && b[2] == 0x4B && b[3] == 0
}

/// Reads the sixteen header bytes.
pub fn parse_mpk_header(bytes: &[u8]) -> (r: Result<MpkHeader, MpkError>)
    requires
        bytes@.len() >= 16,
    ensures
        match r {
            Ok(h) => is_mpk_magic(bytes@) && h == (MpkHeader {
                version: spec_u32_le(bytes@, 4),
                entry_count: spec_u32_le(bytes@, 8),
                reserved: spec_u32_le(bytes@, 12),
            }),
            Err(e) => !is_mpk_magic(bytes@) && e == (MpkError::BadMagic {
                magic: [bytes@[0], bytes@[1], bytes@[2], bytes@[3]],
            }),
        },
{
    if !(bytes[0] == 0x4D && bytes[1] == 0x50 && bytes[2] == 0x4B && bytes[3] == 0) {
        return Err(MpkError::BadMagic { magic: [bytes[0], bytes[1], bytes[2], bytes[3]] });
    }
    Ok(
        MpkHeader {
            version: read_u32_le(bytes, 4),
            entry_count: read_u32_le(bytes, 8),
            reserved: read_u32_le(bytes, 12),
        },
    )
}

/// Where the record of entry `index` starts.
pub fn entry_position(index: u32) -> (r: u64)
    ensures
        r == MPK_HEADER_SIZE + index as int * MPK_ENTRY_SIZE,
{
    MPK_HEADER_SIZE + index as u64 * MPK_ENTRY_SIZE
}

// ── entry records ──

pub struct MpkEntryRecord {
    pub flags: u32,
    pub id: u32,
    pub offset: u64,
    pub size: u64,
    pub unpacked_size: u64,
    pub name: String,
}

/// The little-endian `u64` at `offset`.
pub open spec fn spec_u64_le(data: Seq<u8>, offset: int) -> u64 {
    (spec_u32_le(data, offset) as int + 0x1_0000_0000 * spec_u32_le(data, offset + 4) as int) as u64
}

fn read_u64_le(data: &[u8], offset: usize) -> (r: u64)
    requires
        offset + 8 <= data@.len(),
    ensures
        r == spec_u64_le(data@, offset as int),
{
    // The slice's length is a usize, which bounds `offset + 4`.
    let _len = data.len();
    let lo = read_u32_le(data, offset) as u64;
    let hi = read_u32_le(data, offset + 4) as u64;
    lo + hi * 0x1_0000_0000
}

/// The number of bytes before the first zero, or all of them.
pub open spec fn name_len(field: Seq<u8>) -> int {
    if exists|i: int| 0 <= i < field.len() && field[i] == 0 {
        choose|i: int| 0 <= i < field.len() && field[i] == 0 && forall|j: int| 0 <= j < i ==> field[j] != 0
    } else {
        field.len() as int
    }
}

/// What an entry record holds: two words, three 64-bit numbers and a
/// 32-byte name read up to its first zero.
pub open spec fn record_fields(record: Seq<u8>, e: &MpkEntryRecord) -> bool {
    &&& e.flags == spec_u32_le(record, 0)
    &&& e.id == spec_u32_le(record, 4)
    &&& e.offset == spec_u64_le(record, 8)
    &&& e.size == spec_u64_le(record, 16)
    &&& e.unpacked_size == spec_u64_le(record, 24)
    &&& e.name@ == lossy_utf8(record.subrange(32, 32 + name_len(record.subrange(32, 64))))
}

/// Reads an entry record.
pub fn parse_mpk_entry(record: &[u8]) -> (r: MpkEntryRecord)
    requires
        record@.len() >= 0x40,
    ensures
        record_fields(record@, &r),
{
    let ghost field = record@.subrange(32, 64);
    let mut end: usize = 32;
    while end < 64 && record[end] != 0
        invariant
            32 <= end <= 64,
            record@.len() >= 64,
            field == record@.subrange(32, 64),
            forall|j: int| 0 <= j < end - 32 ==> field[j] != 0,
        decreases 64 - end,
    {
        end = end + 1;
    }
    proof {
        if end < 64 {
            assert(field[end - 32] == 0);
            let n = name_len(field);
            assert(0 <= n < field.len() && field[n] == 0 && forall|j: int| 0 <= j < n ==> field[j] != 0);
            if n < end - 32 {
            } else if n > end - 32 {
                assert(field[end - 32] != 0);
            }
        } else {
            assert(!(exists|i: int| 0 <= i < field.len() && field[i] == 0));
        }
    }
    MpkEntryRecord {
        flags: read_u32_le(record, 0),
        id: read_u32_le(record, 4),
        offset: read_u64_le(record, 8),
        size: read_u64_le(record, 16),
        unpacked_size: read_u64_le(record, 24),
        name: utf8_lossy(&record[32..end]),
    }
}

// ── whitespace ──

/// `char::is_whitespace`: the characters with the Unicode `White_Space`
/// property.
pub open spec fn is_white(c: char) -> bool {
    let v = c as int;
    (9 <= v <= 13) || v == 32 || v == 0x85 || v == 0xA0 || v == 0x1680 || (0x2000 <= v <= 0x200A) || v == 0x2028
        || v == 0x2029 || v == 0x202F || v == 0x205F || v == 0x3000
}

/// `char::is_control`: the characters of general category `Cc`.
pub open spec fn is_control(c: char) -> bool {
    let v = c as int;
    v <= 0x1F || (0x7F <= v <= 0x9F)
}

fn white(c: char) -> (r: bool)
    ensures
        r == is_white(c),
{
    let v = c as u32;
    (9 <= v && v <= 13) || v == 32 || v == 0x85 || v == 0xA0 || v == 0x1680 || (0x2000 <= v && v <= 0x200A) || v
        == 0x2028 || v == 0x2029 || v == 0x202F || v == 0x205F || v == 0x3000
}

/// The first index from `i` on that holds no whitespace, or the length.
pub open spec fn trim_start(s: Seq<char>, i: int) -> int
    decreases s.len() - i,
{
    if i < 0 || i >= s.len() || !is_white(s[i]) {
        i
    } else {
        trim_start(s, i + 1)
    }
}

/// The end after dropping whitespace before `j`, stopping at `lo`.
pub open spec fn trim_end(s: Seq<char>, lo: int, j: int) -> int
    decreases j - lo,
{
    if j <= lo || j > s.len() || !is_white(s[j - 1]) {
        j
    } else {
        trim_end(s, lo, j - 1)
    }
}

/// `str::trim`: `s` without leading and trailing whitespace.
pub open spec fn spec_trim(s: Seq<char>) -> Seq<char> {
    let a = trim_start(s, 0);
    s.subrange(a, trim_end(s, a, s.len() as int))
}

proof fn lemma_trim_start_bounds(s: Seq<char>, i: int)
    requires
        0 <= i <= s.len(),
    ensures
        i <= trim_start(s, i) <= s.len(),
    decreases s.len() - i,
{
    if i < s.len() && is_white(s[i]) {
        lemma_trim_start_bounds(s, i + 1);
    }
}

proof fn lemma_trim_end_bounds(s: Seq<char>, lo: int, j: int)
    requires
        0 <= lo <= j <= s.len(),
    ensures
        lo <= trim_end(s, lo, j) <= j,
    decreases j - lo,
{
    if j > lo && is_white(s[j - 1]) {
        lemma_trim_end_bounds(s, lo, j - 1);
    }
}

/// The characters `a..b` of `s`.
fn chars_between(s: &str, a: usize, b: usize) -> (r: String)
    requires
        a <= b <= s@.len(),
    ensures
        r@ == s@.subrange(a as int, b as int),
{
    let mut out = String::new();
    let mut i = a;
    while i < b
        invariant
            a <= i <= b <= s@.len(),
            out@ == s@.subrange(a as int, i as int),
        decreases b - i,
    {
        push_char(&mut out, s.get_char(i));
        i = i + 1;
        assert(out@ =~= s@.subrange(a as int, i as int));
    }
    out
}

/// `str::trim`.
pub fn trim(s: &str) -> (r: String)
    ensures
        r@ == spec_trim(s@),
{
    let n = s.unicode_len();
    let mut a: usize = 0;
    while a < n && white(s.get_char(a))
        invariant
            a <= n == s@.len(),
            trim_start(s@, 0) == trim_start(s@, a as int),
        decreases n - a,
    {
        a = a + 1;
    }
    let mut b: usize = n;
    while b > a && white(s.get_char(b - 1))
        invariant
            a <= b <= n == s@.len(),
            trim_start(s@, 0) == a,
            trim_end(s@, a as int, n as int) == trim_end(s@, a as int, b as int),
        decreases b,
    {
        b = b - 1;
    }
    chars_between(s, a, b)
}

// ── paths ──

/// Whether `c` may not appear in a file name.
pub open spec fn is_invalid_name_char(c: char) -> bool {
    c == '<' || c == '>' || c == ':' || c == '"' || c == '|' || c == '?' || c == '*' || c == '\0' || is_control(c)
}

/// `segment` with characters that may not appear in a file name replaced
/// by `_`, trimmed, or `fallback` when nothing is left.
pub open spec fn spec_sanitize_segment(segment: Seq<char>, fallback: Seq<char>) -> Seq<char> {
    let mapped = segment.map_values(|c: char| if is_invalid_name_char(c) { '_' } else { c });
    let t = spec_trim(mapped);
    if t.len() == 0 {
        fallback
    } else {
        t
    }
}

pub fn sanitize_path_segment(segment: &str, fallback: &str) -> (r: String)
    ensures
        r@ == spec_sanitize_segment(segment@, fallback@),
{
    let n = segment.unicode_len();
    let mut mapped = String::new();
    let mut i: usize = 0;
    while i < n
        invariant
            i <= n == segment@.len(),
            mapped@ == segment@.subrange(0, i as int).map_values(
                |c: char|
                    if is_invalid_name_char(c) {
                        '_'
                    } else {
                        c
                    },
            ),
        decreases n - i,
    {
        let c = segment.get_char(i);
        let v = c as u32;
        let bad = c == '<' || c == '>' || c == ':' || c == '"' || c == '|' || c == '?' || c == '*' || c == '\0' || v
            <= 0x1F || (0x7F <= v && v <= 0x9F);
        push_char(&mut mapped, if bad { '_' } else { c });
        i = i + 1;
        assert(mapped@ =~= segment@.subrange(0, i as int).map_values(
            |c: char|
                if is_invalid_name_char(c) {
                    '_'
                } else {
                    c
                },
        ));
    }
    assert(segment@.subrange(0, n as int) =~= segment@);
    let t = trim(mapped.as_str());
    if t.unicode_len() == 0 {
        to_string(fallback)
    } else {
        t
    }
}

pub open spec fn is_separator(c: char) -> bool {
    c == '/' || c == '\\'
}

/// The pieces of `s` between separators, empty ones included.
pub open spec fn split_pieces(s: Seq<char>) -> Seq<Seq<char>>
    decreases s.len(),
{
    if s.len() == 0 {
        seq![Seq::empty()]
    } else {
        let rest = split_pieces(s.drop_last());
        if is_separator(s.last()) {
            rest.push(Seq::empty())
        } else {
            rest.update(rest.len() - 1, rest.last().push(s.last()))
        }
    }
}

proof fn lemma_split_pieces_nonempty(s: Seq<char>)
    ensures
        split_pieces(s).len() >= 1,
    decreases s.len(),
{
    if s.len() > 0 {
        lemma_split_pieces_nonempty(s.drop_last());
    }
}

/// `entry_NNNNNN`, the index in six digits.
pub open spec fn entry_stem(index: usize) -> Seq<char> {
    "entry_"@ + zero_pad(dec_digits(index as nat), 6)
}

/// The relative path an entry is extracted to: its name trimmed, split at
/// `/` and `\`, each non-empty part made safe and the parts joined with
/// `/`; `entry_NNNNNN.bin` when nothing is left.
pub open spec fn spec_relative_path(name: Seq<char>, index: usize) -> Seq<char> {
    let parts = split_pieces(spec_trim(name)).filter(|p: Seq<char>| p.len() > 0);
    if parts.len() == 0 {
        entry_stem(index) + ".bin"@
    } else {
        join(sanitized_parts(parts, index), "/"@)
    }
}

/// Each part made safe, with the entry's stem in place of an empty one.
pub open spec fn sanitized_parts(parts: Seq<Seq<char>>, index: usize) -> Seq<Seq<char>> {
    parts.map_values(|p: Seq<char>| spec_sanitize_segment(p, entry_stem(index)))
}

/// The index in at least six decimal digits.
fn padded_index(index: usize) -> (r: String)
    ensures
        r@ == zero_pad(dec_digits(index as nat), 6),
{
    let mut digits = String::new();
    push_dec_u64(&mut digits, index as u64);
    let mut s = String::new();
    let n = digits.as_str().unicode_len();
    let mut k = n;
    while k < 6
        invariant
            n <= k <= 6 || (n > 6 && k == n),
            s@ == Seq::new((k - n) as nat, |i: int| '0'),
        decreases 6 - k,
    {
        push_char(&mut s, '0');
        k = k + 1;
        assert(s@ =~= Seq::new((k - n) as nat, |i: int| '0'));
    }
    s.append(digits.as_str());
    assert(s@ =~= zero_pad(dec_digits(index as nat), 6));
    s
}

fn entry_stem_text(index: usize) -> (r: String)
    ensures
        r@ == entry_stem(index),
{
    let mut s = to_string("entry_");
    let digits = padded_index(index);
    s.append(digits.as_str());
    s
}

#[verifier::rlimit(40)]
#[verifier::spinoff_prover]
pub fn normalize_relative_path(name: &str, index: usize) -> (r: String)
    ensures
        r@ == spec_relative_path(name@, index),
{
    let t = trim(name);
    let s = t.as_str();
    let n = s.unicode_len();
    let ghost pieces = split_pieces(s@);
    let mut parts: Vec<String> = Vec::new();
    let mut cur = String::new();
    let mut i: usize = 0;
    proof {
        lemma_split_pieces_nonempty(s@.subrange(0, 0));
        assert(s@.subrange(0, 0) =~= Seq::<char>::empty());
    }
    while i < n
        invariant
            i <= n == s@.len(),
            ({
                let ps = split_pieces(s@.subrange(0, i as int));
                &&& ps.len() >= 1
                &&& ps.last() == cur@
                &&& strings_view(parts@) == ps.drop_last().filter(|p: Seq<char>| p.len() > 0)
            }),
        decreases n - i,
    {
        let c = s.get_char(i);
        let ghost pre = s@.subrange(0, i as int);
        let ghost ps = split_pieces(pre);
        assert(s@.subrange(0, i + 1).drop_last() =~= pre);
        if c == '/' || c == '\\' {
            if cur.as_str().unicode_len() > 0 {
                let ghost before = strings_view(parts@);
                parts.push(cur);
                assert(strings_view(parts@) =~= before.push(ps.last()));
            }
            cur = String::new();
            proof {
                let nps = split_pieces(s@.subrange(0, i + 1));
                assert(nps == ps.push(Seq::empty()));
                assert(nps.drop_last() =~= ps);
                assert(ps =~= ps.drop_last().push(ps.last()));
                ps.drop_last().lemma_filter_push(ps.last(), |p: Seq<char>| p.len() > 0);
            }
        } else {
            push_char(&mut cur, c);
            proof {
                let nps = split_pieces(s@.subrange(0, i + 1));
                assert(nps == ps.update(ps.len() - 1, ps.last().push(c)));
                assert(nps.drop_last() =~= ps.drop_last());
            }
        }
        i = i + 1;
    }
    assert(s@.subrange(0, n as int) =~= s@);
    if cur.as_str().unicode_len() > 0 {
        let ghost before = strings_view(parts@);
        let ghost ps = split_pieces(s@);
        parts.push(cur);
        proof {
            assert(strings_view(parts@) =~= before.push(ps.last()));
            assert(ps =~= ps.drop_last().push(ps.last()));
            ps.drop_last().lemma_filter_push(ps.last(), |p: Seq<char>| p.len() > 0);
        }
    } else {
        proof {
            let ps = split_pieces(s@);
            assert(ps =~= ps.drop_last().push(ps.last()));
            ps.drop_last().lemma_filter_push(ps.last(), |p: Seq<char>| p.len() > 0);
        }
    }
    if parts.len() == 0 {
        let mut r = entry_stem_text(index);
        r.append(".bin");
        return r;
    }
    let stem = entry_stem_text(index);
    let mut sanitized: Vec<String> = Vec::new();
    let mut j: usize = 0;
    while j < parts.len()
        invariant
            j <= parts@.len(),
            stem@ == entry_stem(index),
            sanitized@.len() == j,
            forall|k: int|
                0 <= k < j ==> (#[trigger] sanitized@[k])@ == spec_sanitize_segment(parts@[k]@, entry_stem(index)),
        decreases parts@.len() - j,
    {
        sanitized.push(sanitize_path_segment(parts[j].as_str(), stem.as_str()));
        j = j + 1;
    }
    assert(strings_view(sanitized@) =~= sanitized_parts(strings_view(parts@), index));
    let mut out = String::new();
    push_joined_strings(&mut out, &sanitized, "/");
    assert(out@ =~= spec_relative_path(name@, index));
    out
}

/// What to do with entry `index`: `None` to skip an empty slot, the
/// relative path to extract it to, or an error when its data lies outside
/// an archive of `file_len` bytes.
pub open spec fn spec_plan_entry(index: u32, e: &MpkEntryRecord, file_len: u64) -> Result<Option<Seq<char>>, MpkError> {
    if spec_trim(e.name@).len() == 0 && e.offset == 0 && e.size == 0 && e.unpacked_size == 0 {
        Ok(None)
    } else if e.offset > file_len || e.size > file_len || e.offset + e.size > file_len {
        Err(MpkError::EntryOutOfBounds { index, offset: e.offset, size: e.size, archive_size: file_len })
    } else {
        Ok(Some(spec_relative_path(e.name@, index as usize)))
    }
}

pub fn plan_mpk_entry(index: u32, entry: &MpkEntryRecord, file_len: u64) -> (r: Result<Option<String>, MpkError>)
    ensures
        match r {
            Ok(Some(p)) => spec_plan_entry(index, entry, file_len) == Ok::<Option<Seq<char>>, MpkError>(Some(p@)),
            Ok(None) => spec_plan_entry(index, entry, file_len) == Ok::<Option<Seq<char>>, MpkError>(None),
            Err(e) => spec_plan_entry(index, entry, file_len) == Err::<Option<Seq<char>>, MpkError>(e),
        },
{
    let t = trim(entry.name.as_str());
    if t.as_str().unicode_len() == 0 && entry.offset == 0 && entry.size == 0 && entry.unpacked_size == 0 {
        return Ok(None);
    }
    if entry.offset > file_len || entry.size > file_len || entry.offset > file_len - entry.size {
        return Err(
            MpkError::EntryOutOfBounds {
                index,
                offset: entry.offset,
                size: entry.size,
                archive_size: file_len,
            },
        );
    }
    Ok(Some(normalize_relative_path(entry.name.as_str(), index as usize)))
}

// ── output paths ──

/// The text of `Path::new(dir).join(rel)`.
pub uninterp spec fn joined_path(dir: Seq<char>, rel: Seq<char>) -> Seq<char>;

/// The text of `Path::file_stem`, empty when there is none.
pub uninterp spec fn path_file_stem(p: Seq<char>) -> Seq<char>;

/// The text of `Path::extension`.
pub uninterp spec fn path_extension(p: Seq<char>) -> Option<Seq<char>>;

/// The text of `Path::parent`.
pub uninterp spec fn path_parent(p: Seq<char>) -> Option<Seq<char>>;

/// The text of `Path::strip_prefix`, when `base` is a prefix of `target`.
pub uninterp spec fn path_strip_prefix(target: Seq<char>, base: Seq<char>) -> Option<Seq<char>>;

/// Joins two paths with `std::path::Path::join`; the contract names the
/// result (`joined_path`) and states nothing of how the platform joins.
#[verifier::external_body]
fn path_join(dir: &str, rel: &str) -> (r: String)
    ensures
        r@ == joined_path(dir@, rel@),
{
    std::path::Path::new(dir).join(rel).to_string_lossy().into_owned()
}

/// The file stem by `std::path::Path::file_stem`, named `path_file_stem`.
#[verifier::external_body]
fn file_stem_of(p: &str) -> (r: String)
    ensures
        r@ == path_file_stem(p@),
{
    std::path::Path::new(p).file_stem().unwrap_or_default().to_string_lossy().into_owned()
}

/// The extension by `std::path::Path::extension`, named `path_extension`.
#[verifier::external_body]
fn extension_of(p: &str) -> (r: Option<String>)
    ensures
        match r {
            Some(e) => path_extension(p@) == Some(e@),
            None => path_extension(p@) is None,
        },
{
    match std::path::Path::new(p).extension() {
        Some(e) => Some(e.to_string_lossy().into_owned()),
        None => None,
    }
}

/// The parent by `std::path::Path::parent`, named `path_parent`.
#[verifier::external_body]
fn parent_of(p: &str) -> (r: Option<String>)
    ensures
        match r {
            Some(d) => path_parent(p@) == Some(d@),
            None => path_parent(p@) is None,
        },
{
    match std::path::Path::new(p).parent() {
        Some(d) => Some(d.to_string_lossy().into_owned()),
        None => None,
    }
}

/// `target` relative to `base` by `std::path::Path::strip_prefix`, named
/// `path_strip_prefix`.
#[verifier::external_body]
fn strip_prefix_of(target: &str, base: &str) -> (r: Option<String>)
    ensures
        match r {
            Some(d) => path_strip_prefix(target@, base@) == Some(d@),
            None => path_strip_prefix(target@, base@) is None,
        },
{
    match std::path::Path::new(target).strip_prefix(base) {
        Ok(d) => Some(d.to_string_lossy().into_owned()),
        Err(_) => None,
    }
}

/// `<stem>__dup_NNNNNN<.ext>`.
pub open spec fn dup_name(stem: Seq<char>, index: usize, ext: Option<Seq<char>>) -> Seq<char> {
    stem + "__dup_"@ + zero_pad(dec_digits(index as nat), 6) + match ext {
        Some(e) => "."@ + e,
        None => Seq::empty(),
    }
}

/// Where entry `index` goes: `dir` joined with `rel`, unless that path (in
/// ASCII lower case) was used already; then the same directory with
/// `__dup_NNNNNN` after the stem.
pub open spec fn spec_unique_path(dir: Seq<char>, rel: Seq<char>, used: Seq<Seq<char>>, index: usize) -> Seq<char> {
    let c = joined_path(dir, rel);
    if !used.contains(ascii_lower(c)) {
        c
    } else {
        let d = match path_parent(c) {
            Some(p) => p,
            None => dir,
        };
        joined_path(d, dup_name(path_file_stem(c), index, path_extension(c)))
    }
}

fn contains_text(v: &Vec<String>, x: &str) -> (r: bool)
    ensures
        r == strings_view(v@).contains(x@),
{
    let mut i: usize = 0;
    while i < v.len()
        invariant
            i <= v@.len(),
            forall|j: int| 0 <= j < i ==> v@[j]@ != x@,
        decreases v@.len() - i,
    {
        if str_eq(v[i].as_str(), x) {
            assert(strings_view(v@)[i as int] == x@);
            return true;
        }
        i = i + 1;
    }
    assert(!strings_view(v@).contains(x@)) by {
        if strings_view(v@).contains(x@) {
            let j = choose|j: int| 0 <= j < strings_view(v@).len() && strings_view(v@)[j] == x@;
            assert(v@[j]@ == x@);
        }
    }
    false
}

/// Records `key` among the used paths unless it is there already.
fn remember(used: &mut Vec<String>, key: String)
    ensures
        forall|x: Seq<char>| strings_view(final(used)@).contains(x) <==> (strings_view(old(used)@).contains(x) || x == key@),
{
    if !contains_text(used, key.as_str()) {
        let ghost before = strings_view(used@);
        let ghost k = key@;
        used.push(key);
        assert(strings_view(used@) =~= before.push(k));
    }
}

/// The output path of an entry, kept apart (ignoring ASCII case) from the
/// paths used before, which `used` records.
pub fn make_unique_output_path(output_dir: &str, relative: &str, used: &mut Vec<String>, index: usize) -> (r: String)
    ensures
        r@ == spec_unique_path(output_dir@, relative@, strings_view(old(used)@), index),
        forall|x: Seq<char>|
            strings_view(final(used)@).contains(x) <==> (strings_view(old(used)@).contains(x) || x == ascii_lower(r@)),
{
    let candidate = path_join(output_dir, relative);
    let key = to_ascii_lowercase(candidate.as_str());
    if !contains_text(used, key.as_str()) {
        remember(used, key);
        return candidate;
    }
    let stem = file_stem_of(candidate.as_str());
    let ext = extension_of(candidate.as_str());
    let dir = match parent_of(candidate.as_str()) {
        Some(p) => p,
        None => to_string(output_dir),
    };
    let mut name = stem;
    name.append("__dup_");
    let digits = padded_index(index);
    name.append(digits.as_str());
    match ext {
        Some(e) => {
            name.append(".");
            name.append(e.as_str());
        },
        None => {},
    }
    proof {
        let ghost e_opt = path_extension(candidate@);
        assert(name@ =~= dup_name(path_file_stem(candidate@), index, e_opt));
    }
    let unique = path_join(dir.as_str(), name.as_str());
    let ukey = to_ascii_lowercase(unique.as_str());
    remember(used, ukey);
    unique
}

/// `target` relative to `base`, or `target` itself when `base` is not one
/// of its prefixes.
pub fn pathdiff(base: &str, target: &str) -> (r: String)
    ensures
        r@ == match path_strip_prefix(target@, base@) {
            Some(p) => p,
            None => target@,
        },
{
    match strip_prefix_of(target, base) {
        Some(p) => p,
        None => to_string(target),
    }
}

// ── laws ──

proof fn lemma_trim_is_subrange(s: Seq<char>)
    ensures
        ({
            let a = trim_start(s, 0);
            let b = trim_end(s, a, s.len() as int);
            0 <= a <= b <= s.len() && spec_trim(s) == s.subrange(a, b)
        }),
{
    lemma_trim_start_bounds(s, 0);
    lemma_trim_end_bounds(s, trim_start(s, 0), s.len() as int);
}

/// A made-safe path segment holds none of the characters a file name may
/// not hold, and is never empty, when its fallback is such a name.
pub proof fn lemma_sanitized_segment_clean(segment: Seq<char>, fallback: Seq<char>)
    requires
        fallback.len() > 0,
        forall|i: int| 0 <= i < fallback.len() ==> !is_invalid_name_char(#[trigger] fallback[i]),
    ensures
        spec_sanitize_segment(segment, fallback).len() > 0,
        forall|i: int|
            0 <= i < spec_sanitize_segment(segment, fallback).len() ==> !is_invalid_name_char(
                #[trigger] spec_sanitize_segment(segment, fallback)[i],
            ),
{
    let mapped = segment.map_values(|c: char| if is_invalid_name_char(c) { '_' } else { c });
    lemma_trim_is_subrange(mapped);
    let a = trim_start(mapped, 0);
    let t = spec_trim(mapped);
    assert forall|i: int| 0 <= i < t.len() implies !is_invalid_name_char(#[trigger] t[i]) by {
        assert(t[i] == mapped[a + i]);
    }
}

/// No character of `s` is one a file name may not hold.
pub open spec fn is_clean_name(s: Seq<char>) -> bool {
    forall|i: int| 0 <= i < s.len() ==> !is_invalid_name_char(#[trigger] s[i])
}

proof fn lemma_dec_digits_clean(n: nat)
    ensures
        is_clean_name(dec_digits(n)),
    decreases n,
{
    if n >= 10 {
        lemma_dec_digits_clean(n / 10);
        let d = dec_digits(n);
        let c = ((48 + n % 10) as u8) as char;
        assert(d == dec_digits(n / 10).push(c));
        assert forall|i: int| 0 <= i < d.len() implies !is_invalid_name_char(#[trigger] d[i]) by {
            if i < d.len() - 1 {
                assert(d[i] == dec_digits(n / 10)[i]);
            }
        }
    }
}

proof fn lemma_entry_stem_clean(index: usize)
    ensures
        is_clean_name(entry_stem(index)),
        is_clean_name(entry_stem(index) + ".bin"@),
        entry_stem(index).len() > 0,
{
    reveal_strlit("entry_");
    reveal_strlit(".bin");
    let digits = dec_digits(index as nat);
    lemma_dec_digits_clean(index as nat);
    let padded = zero_pad(digits, 6);
    assert(is_clean_name(padded)) by {
        if digits.len() < 6 {
            let zeros = Seq::new((6 - digits.len()) as nat, |i: int| '0');
            assert forall|i: int| 0 <= i < padded.len() implies !is_invalid_name_char(#[trigger] padded[i]) by {
                if i >= zeros.len() {
                    assert(padded[i] == digits[i - zeros.len()]);
                }
            }
        }
    }
    let stem = entry_stem(index);
    assert forall|i: int| 0 <= i < stem.len() implies !is_invalid_name_char(#[trigger] stem[i]) by {
        if i >= 6 {
            assert(stem[i] == padded[i - 6]);
        }
    }
    let file = stem + ".bin"@;
    assert forall|i: int| 0 <= i < file.len() implies !is_invalid_name_char(#[trigger] file[i]) by {
        if i < stem.len() {
            assert(file[i] == stem[i]);
        }
    }
}

proof fn lemma_join_clean(parts: Seq<Seq<char>>, sep: Seq<char>)
    requires
        is_clean_name(sep),
        forall|k: int| 0 <= k < parts.len() ==> is_clean_name(#[trigger] parts[k]) && parts[k].len() > 0,
    ensures
        is_clean_name(join(parts, sep)),
        parts.len() > 0 ==> join(parts, sep).len() > 0,
    decreases parts.len(),
{
    if parts.len() > 1 {
        let head = parts.drop_last();
        assert forall|k: int| 0 <= k < head.len() implies is_clean_name(#[trigger] head[k]) && head[k].len() > 0 by {
            assert(head[k] == parts[k]);
        }
        lemma_join_clean(head, sep);
        let last = parts[parts.len() - 1];
        let j = join(parts, sep);
        let a = join(head, sep) + sep;
        assert(j == a + last);
        assert forall|i: int| 0 <= i < j.len() implies !is_invalid_name_char(#[trigger] j[i]) by {
            if i < join(head, sep).len() {
                assert(j[i] == join(head, sep)[i]);
            } else if i < a.len() {
                assert(j[i] == sep[i - join(head, sep).len()]);
            } else {
                assert(j[i] == last[i - a.len()]);
            }
        }
    } else if parts.len() == 1 {
        assert(is_clean_name(parts[0]));
    }
}

/// The path an entry is extracted to is never empty and holds none of the
/// characters a file name may not hold.
pub proof fn lemma_relative_path_clean(name: Seq<char>, index: usize)
    ensures
        spec_relative_path(name, index).len() > 0,
        is_clean_name(spec_relative_path(name, index)),
{
    lemma_entry_stem_clean(index);
    let parts = split_pieces(spec_trim(name)).filter(|p: Seq<char>| p.len() > 0);
    if parts.len() > 0 {
        let stem = entry_stem(index);
        let safe = sanitized_parts(parts, index);
        assert forall|k: int| 0 <= k < safe.len() implies is_clean_name(#[trigger] safe[k]) && safe[k].len() > 0 by {
            lemma_sanitized_segment_clean(parts[k], stem);
            assert(safe[k] == spec_sanitize_segment(parts[k], stem));
        }
        reveal_strlit("/");
        lemma_join_clean(safe, "/"@);
    }
}

} // verus!
