//! Which input files a run takes, and the names of what it writes.
use vstd::prelude::*;

use crate::il::{push_joined_strings, strings_view};
use crate::text::{ascii_lower, dec_text, hex_text, join, push_dec_u64, push_hex, str_eq, to_ascii_lowercase, to_string};

verus! {

/// `*.*` and `*` take every file; `*.ext` takes the names that end in
/// `.ext`, ignoring ASCII case; any other pattern takes every file.
pub open spec fn spec_matches_pattern(file_name: Seq<char>, pattern: Seq<char>) -> bool {
    if pattern == "*.*"@ || pattern == "*"@ {
        true
    } else {
        let pat = ascii_lower(pattern);
        if pat.len() >= 2 && pat[0] == '*' && pat[1] == '.' {
            let suffix = seq!['.'] + pat.skip(2);
            let f = ascii_lower(file_name);
            suffix.len() <= f.len() && f.subrange(f.len() - suffix.len(), f.len() as int) == suffix
        } else {
            true
        }
    }
}

pub fn matches_pattern(file_name: &str, pattern: &str) -> (r: bool)
    ensures
        r == spec_matches_pattern(file_name@, pattern@),
{
    if str_eq(pattern, "*.*") || str_eq(pattern, "*") {
        return true;
    }
    let pat = to_ascii_lowercase(pattern);
    let p = pat.as_str();
    let m = p.unicode_len();
    if m < 2 || p.get_char(0) != '*' || p.get_char(1) != '.' {
        return true;
    }
    let ghost suffix = seq!['.'] + p@.skip(2);
    assert(suffix =~= p@.skip(1));
    let low = to_ascii_lowercase(file_name);
    let f = low.as_str();
    let n = f.unicode_len();
    if m - 1 > n {
        return false;
    }
    let start = n - (m - 1);
    let mut k: usize = 0;
    while k < m - 1
        invariant
            m == p@.len(),
            n == f@.len(),
            2 <= m,
            m - 1 <= n,
            start == n - (m - 1),
            suffix == p@.skip(1),
            suffix == seq!['.'] + p@.skip(2),
            p@ == ascii_lower(pattern@),
            f@ == ascii_lower(file_name@),
            pattern@ != "*.*"@,
            pattern@ != "*"@,
            p@[0] == '*',
            p@[1] == '.',
            k <= m - 1,
            forall|j: int| 0 <= j < k ==> f@[start + j] == suffix[j],
        decreases m - 1 - k,
    {
        if f.get_char(start + k) != p.get_char(k + 1) {
            assert(f@.subrange(start as int, n as int)[k as int] != suffix[k as int]);
            assert(f@.subrange(start as int, n as int) != suffix);
            assert(suffix == seq!['.'] + ascii_lower(pattern@).skip(2));
            return false;
        }
        k = k + 1;
    }
    assert(f@.subrange(start as int, n as int) =~= suffix);
    true
}

/// Whether a file's extension is `wanted`, ignoring ASCII case.
pub fn extension_is(ext: &str, wanted: &str) -> (r: bool)
    ensures
        r == (ascii_lower(ext@) == ascii_lower(wanted@)),
{
    let a = to_ascii_lowercase(ext);
    let b = to_ascii_lowercase(wanted);
    str_eq(a.as_str(), b.as_str())
}

/// The disassembler takes `.scx` and `.msb` files.
pub fn is_supported(ext: &str) -> (r: bool)
    ensures
        r == (ascii_lower(ext@) == "scx"@ || ascii_lower(ext@) == "msb"@),
{
    proof {
        reveal_strlit("scx");
        reveal_strlit("msb");
        assert(ascii_lower("scx"@) =~= "scx"@);
        assert(ascii_lower("msb"@) =~= "msb"@);
    }
    extension_is(ext, "scx") || extension_is(ext, "msb")
}

/// `msg_XXXXXXXX.png`, the picture of a message.
pub open spec fn spec_message_file_name(msg_id: u32) -> Seq<char> {
    "msg_"@ + hex_text(msg_id as nat, 8, true) + ".png"@
}

pub fn message_file_name(msg_id: u32) -> (r: String)
    ensures
        r@ == spec_message_file_name(msg_id),
{
    let mut out = to_string("msg_");
    push_hex(&mut out, msg_id as u64, 8, true);
    out.append(".png");
    out
}

/// `<source set>__<stem>`, the folder of a rendered message file.
pub fn message_dir_name(source_set: &str, stem: &str) -> (r: String)
    ensures
        r@ == source_set@ + "__"@ + stem@,
{
    let mut out = to_string(source_set);
    out.append("__");
    out.append(stem);
    out
}

/// A line of the index of rendered messages.
pub open spec fn spec_index_line(
    msg_id: u32,
    png_name: Seq<char>,
    name_lines: usize,
    body_lines: usize,
    ignored: Seq<Seq<char>>,
) -> Seq<char> {
    "msg_"@ + hex_text(msg_id as nat, 8, true) + " | "@ + png_name + " | name_lines="@ + dec_text(name_lines as int)
        + " | body_lines="@ + dec_text(body_lines as int) + " | ignored="@ + if ignored.len() == 0 {
        "-"@
    } else {
        join(ignored, ", "@)
    }
}

pub fn index_line(msg_id: u32, png_name: &str, name_lines: usize, body_lines: usize, ignored: &Vec<String>) -> (r: String)
    ensures
        r@ == spec_index_line(msg_id, png_name@, name_lines, body_lines, strings_view(ignored@)),
{
    let mut out = to_string("msg_");
    push_hex(&mut out, msg_id as u64, 8, true);
    out.append(" | ");
    out.append(png_name);
    out.append(" | name_lines=");
    push_dec_u64(&mut out, name_lines as u64);
    out.append(" | body_lines=");
    push_dec_u64(&mut out, body_lines as u64);
    out.append(" | ignored=");
    if ignored.len() == 0 {
        out.append("-");
    } else {
        push_joined_strings(&mut out, ignored, ", ");
    }
    out
}

} // verus!
