//! The text side of rendering a message: which tokens belong to the name
//! and which to the body, which are glyphs, and which controls were left
//! unrendered.
use vstd::prelude::*;

use crate::expr::seq_starts_with;
use crate::msb::{decode_entry_tokens, entry_fits, spec_entry_tokens, tokens_view, MsbEntry, MsbToken, SpecMsbToken};
use crate::text::{ascii_lower, ascii_lower_char, dec_text, parse_hex_range, push_dec_u64, spec_parse_hex, str_eq, to_string};
use crate::il::strings_view;
use crate::format::{le16, read_u16_le};

verus! {

/// The placement and size of one glyph in the font atlas, as the metrics
/// file stores it.
#[derive(Clone, Copy, Debug)]
pub struct GlyphMetrics {
    pub x_offset: i16,
    pub y_offset: i16,
    pub atlas_x: i16,
    pub atlas_y: i16,
    pub width: i16,
    pub height: i16,
    pub advance_x: i16,
    pub line_height: i16,
}

// ── name and body ──

/// The tokens from `i` on, split into the name run and the body: markers
/// that open and close the name run and the end marker are dropped.
pub open spec fn split_from(ts: Seq<SpecMsbToken>, i: int, in_name: bool) -> (Seq<SpecMsbToken>, Seq<SpecMsbToken>)
    decreases ts.len() - i,
{
    if i < 0 || i >= ts.len() {
        (Seq::empty(), Seq::empty())
    } else {
        let t = ts[i];
        if t.text == "begin_name_run()"@ {
            split_from(ts, i + 1, true)
        } else if t.text == "end_name_run()"@ {
            split_from(ts, i + 1, false)
        } else if t.text == "end()"@ {
            split_from(ts, i + 1, in_name)
        } else {
            let rest = split_from(ts, i + 1, in_name);
            if in_name {
                (seq![t] + rest.0, rest.1)
            } else {
                (rest.0, seq![t] + rest.1)
            }
        }
    }
}

fn copy_token(t: &MsbToken) -> (r: MsbToken)
    ensures
        r@ == t@,
{
    MsbToken { offset: t.offset, end: t.end, kind: t.kind.clone(), raw: t.raw, text: t.text.clone() }
}

/// The tokens of a message split into the speaker's name and the body.
pub fn split_entry_sections(entry: &MsbEntry) -> (r: (Vec<MsbToken>, Vec<MsbToken>))
    requires
        entry_fits(entry@),
    ensures
        (tokens_view(r.0@), tokens_view(r.1@)) == split_from(spec_entry_tokens(entry@), 0, false),
        tokens_view(r.0@) == section_tokens(
            spec_entry_tokens(entry@),
            spec_entry_tokens(entry@).len() as int,
            true,
        ),
        tokens_view(r.1@) == section_tokens(
            spec_entry_tokens(entry@),
            spec_entry_tokens(entry@).len() as int,
            false,
        ),
{
    let decoded = decode_entry_tokens(entry);
    let ghost ts = tokens_view(decoded@);
    let mut name_tokens: Vec<MsbToken> = Vec::new();
    let mut body_tokens: Vec<MsbToken> = Vec::new();
    let mut in_name_run = false;
    let mut i: usize = 0;
    assert(tokens_view(name_tokens@) + split_from(ts, 0, false).0 =~= split_from(ts, 0, false).0);
    assert(tokens_view(body_tokens@) + split_from(ts, 0, false).1 =~= split_from(ts, 0, false).1);
    while i < decoded.len()
        invariant
            i <= decoded@.len(),
            ts == tokens_view(decoded@),
            ({
                let rest = split_from(ts, i as int, in_name_run);
                let all = split_from(ts, 0, false);
                all == (tokens_view(name_tokens@) + rest.0, tokens_view(body_tokens@) + rest.1)
            }),
        decreases decoded@.len() - i,
    {
        let token = &decoded[i];
        assert(ts[i as int] == token@);
        let ghost rest = split_from(ts, i + 1, in_name_run);
        if str_eq(token.text.as_str(), "begin_name_run()") {
            in_name_run = true;
        } else if str_eq(token.text.as_str(), "end_name_run()") {
            in_name_run = false;
        } else if str_eq(token.text.as_str(), "end()") {
        } else if in_name_run {
            let ghost before = tokens_view(name_tokens@);
            name_tokens.push(copy_token(token));
            assert(tokens_view(name_tokens@) =~= before.push(token@));
            assert(before + (seq![token@] + rest.0) =~= before.push(token@) + rest.0);
        } else {
            let ghost before = tokens_view(body_tokens@);
            body_tokens.push(copy_token(token));
            assert(tokens_view(body_tokens@) =~= before.push(token@));
            assert(before + (seq![token@] + rest.1) =~= before.push(token@) + rest.1);
        }
        i = i + 1;
    }
    assert(tokens_view(name_tokens@) + Seq::<SpecMsbToken>::empty() =~= tokens_view(name_tokens@));
    assert(tokens_view(body_tokens@) + Seq::<SpecMsbToken>::empty() =~= tokens_view(body_tokens@));
    proof {
        lemma_split_sections(ts);
    }
    (name_tokens, body_tokens)
}

// ── glyphs and arguments ──

/// A plain token (`tok`) stands for the glyph its raw value names, without
/// the top bit.
pub open spec fn spec_glyph_index(t: SpecMsbToken) -> Option<usize> {
    if t.kind == "tok"@ {
        Some((t.raw % 0x8000_0000) as usize)
    } else {
        None
    }
}

pub fn try_parse_glyph_index(token: &MsbToken) -> (r: Option<usize>)
    ensures
        r == spec_glyph_index(token@),
{
    if !str_eq(token.kind.as_str(), "tok") {
        return None;
    }
    Some((token.raw % 0x8000_0000) as usize)
}

/// `prefix` (in either case), hexadecimal digits that fit in 16 bits, and
/// a closing parenthesis: the digits' value.
pub open spec fn spec_u16_argument(text: Seq<char>, prefix: Seq<char>) -> Option<u16> {
    if seq_starts_with(ascii_lower(text), ascii_lower(prefix)) && text.len() > 0 && text.last() == ')' {
        match spec_parse_hex(text.subrange(prefix.len() as int, text.len() - 1), 0xFFFF) {
            Some(v) => Some(v as u16),
            None => None,
        }
    } else {
        None
    }
}

/// Reads the hexadecimal argument of a control written as `prefix..)`.
pub fn try_parse_u16_argument(text: &str, prefix: &str) -> (r: Option<u16>)
    requires
        !(ascii_lower(text@) == ascii_lower(prefix@) && text@.len() > 0 && text@.last() == ')'),
    ensures
        r == spec_u16_argument(text@, prefix@),
{
    let n = text.unicode_len();
    let m = prefix.unicode_len();
    if m > n {
        return None;
    }
    let mut i: usize = 0;
    while i < m
        invariant
            n == text@.len(),
            m == prefix@.len(),
            m <= n,
            i <= m,
            forall|j: int| 0 <= j < i ==> ascii_lower_char(text@[j]) == ascii_lower_char(prefix@[j]),
        decreases m - i,
    {
        let a = text.get_char(i);
        let b = prefix.get_char(i);
        let la = if 'A' <= a && a <= 'Z' {
            ((a as u8) + 32) as char
        } else {
            a
        };
        let lb = if 'A' <= b && b <= 'Z' {
            ((b as u8) + 32) as char
        } else {
            b
        };
        if la != lb {
            assert(ascii_lower(text@).subrange(0, m as int)[i as int] != ascii_lower(prefix@)[i as int]);
            return None;
        }
        i = i + 1;
    }
    assert(ascii_lower(text@).subrange(0, m as int) =~= ascii_lower(prefix@));
    if n == 0 || text.get_char(n - 1) != ')' {
        return None;
    }
    proof {
        if m > n - 1 {
            assert(ascii_lower(text@) =~= ascii_lower(text@).subrange(0, m as int));
        }
    }
    match parse_hex_range(text, m, n - 1, 0xFFFF) {
        Some(v) => Some(v as u16),
        None => None,
    }
}

/// A prefix that does not end in `)` is never the whole of a text that
/// does, in either case.
pub(crate) proof fn lemma_argument_prefix(text: Seq<char>, prefix: Seq<char>)
    requires
        prefix.len() == 0 || prefix.last() != ')',
    ensures
        !(ascii_lower(text) == ascii_lower(prefix) && text.len() > 0 && text.last() == ')'),
{
    if ascii_lower(text) == ascii_lower(prefix) && text.len() > 0 && text.last() == ')' {
        assert(ascii_lower(text).len() == text.len());
        assert(ascii_lower(prefix).len() == prefix.len());
        let c = prefix[prefix.len() - 1];
        assert(ascii_lower(text)[text.len() - 1] == ')');
        assert(ascii_lower(prefix)[prefix.len() - 1] == ascii_lower_char(c));
        if 'A' <= c && c <= 'Z' {
            assert(((c as u8) + 32) as u8 as char >= 'a');
        }
    }
}

// ── unrendered controls ──

/// Code-point lexicographic order, the order of `str`'s `Ord`.
pub open spec fn text_lt(a: Seq<char>, b: Seq<char>) -> bool
    decreases a.len(),
{
    if b.len() == 0 {
        false
    } else if a.len() == 0 {
        true
    } else if a[0] != b[0] {
        a[0] < b[0]
    } else {
        text_lt(a.drop_first(), b.drop_first())
    }
}

/// No text comes before itself.
pub proof fn lemma_text_lt_irreflexive(a: Seq<char>)
    ensures
        !text_lt(a, a),
    decreases a.len(),
{
    if a.len() > 0 {
        lemma_text_lt_irreflexive(a.drop_first());
    }
}

/// Of two different texts, one comes before the other.
pub proof fn lemma_text_lt_total(a: Seq<char>, b: Seq<char>)
    ensures
        a != b ==> text_lt(a, b) || text_lt(b, a),
    decreases a.len(),
{
    if a.len() > 0 && b.len() > 0 && a[0] == b[0] {
        lemma_text_lt_total(a.drop_first(), b.drop_first());
        if a.drop_first() == b.drop_first() {
            assert(a =~= seq![a[0]] + a.drop_first());
            assert(b =~= seq![b[0]] + b.drop_first());
        }
    } else if a.len() == 0 && b.len() == 0 {
        assert(a =~= b);
    }
}

/// The order of texts is transitive.
pub proof fn lemma_text_lt_trans(a: Seq<char>, b: Seq<char>, c: Seq<char>)
    requires
        text_lt(a, b),
        text_lt(b, c),
    ensures
        text_lt(a, c),
    decreases a.len(),
{
    if a.len() > 0 && b.len() > 0 && c.len() > 0 && a[0] == b[0] && b[0] == c[0] {
        lemma_text_lt_trans(a.drop_first(), b.drop_first(), c.drop_first());
    }
}

/// How often `x` occurs in `s`.
pub open spec fn count_of(s: Seq<Seq<char>>, x: Seq<char>) -> nat
    decreases s.len(),
{
    if s.len() == 0 {
        0
    } else {
        count_of(s.drop_last(), x) + if s.last() == x {
            1nat
        } else {
            0
        }
    }
}

/// `<control> x<count>`.
pub open spec fn control_line(k: Seq<char>, n: nat) -> Seq<char> {
    k + " x"@ + dec_text(n as int)
}

pub open spec fn strictly_sorted(keys: Seq<Seq<char>>) -> bool {
    forall|i: int, j: int| 0 <= i < j < keys.len() ==> text_lt(#[trigger] keys[i], #[trigger] keys[j])
}

/// `r` lists each distinct control of `ignored` once, in `str` order, with
/// the number of times it occurs.
pub open spec fn is_control_summary(ignored: Seq<Seq<char>>, r: Seq<Seq<char>>) -> bool {
    exists|keys: Seq<Seq<char>>|
        {
            &&& strictly_sorted(keys)
            &&& forall|x: Seq<char>| keys.contains(x) <==> ignored.contains(x)
            &&& r.len() == keys.len()
            &&& forall|i: int| 0 <= i < keys.len() ==> r[i] == control_line(keys[i], count_of(ignored, keys[i]))
        }
}

/// Whether `a` comes before `b` in `str` order.
pub fn str_lt(a: &str, b: &str) -> (r: bool)
    ensures
        r == text_lt(a@, b@),
{
    let n = a.unicode_len();
    let m = b.unicode_len();
    let mut i: usize = 0;
    assert(a@.skip(0) =~= a@);
    assert(b@.skip(0) =~= b@);
    while i < n && i < m
        invariant
            n == a@.len(),
            m == b@.len(),
            i <= n,
            i <= m,
            text_lt(a@, b@) == text_lt(a@.skip(i as int), b@.skip(i as int)),
        decreases n - i,
    {
        let x = a.get_char(i);
        let y = b.get_char(i);
        assert(a@.skip(i as int)[0] == x && b@.skip(i as int)[0] == y);
        if x != y {
            return x < y;
        }
        assert(a@.skip(i as int).drop_first() =~= a@.skip(i + 1));
        assert(b@.skip(i as int).drop_first() =~= b@.skip(i + 1));
        i = i + 1;
    }
    i < m
}

/// Each distinct unrendered control once, in `str` order, with its count.
#[verifier::rlimit(40)]
#[verifier::spinoff_prover]
pub fn build_unsupported_control_list(ignored: &[String]) -> (r: Vec<String>)
    ensures
        is_control_summary(strings_view(ignored@), strings_view(r@)),
{
    let ghost all = strings_view(ignored@);
    let mut keys: Vec<String> = Vec::new();
    let mut counts: Vec<usize> = Vec::new();
    let mut i: usize = 0;
    while i < ignored.len()
        invariant
            i <= ignored@.len(),
            all == strings_view(ignored@),
            strictly_sorted(strings_view(keys@)),
            forall|x: Seq<char>| strings_view(keys@).contains(x) <==> all.subrange(0, i as int).contains(x),
            counts@.len() == keys@.len(),
            forall|j: int|
                0 <= j < keys@.len() ==> #[trigger] counts@[j] == count_of(all.subrange(0, i as int), keys@[j]@),
        decreases ignored@.len() - i,
    {
        let x = &ignored[i];
        let ghost ks = strings_view(keys@);
        let ghost pre = all.subrange(0, i as int);
        let ghost next = all.subrange(0, i + 1);
        assert(next =~= pre.push(x@));
        assert(next.drop_last() =~= pre);
        let mut p: usize = 0;
        let mut found = false;
        while p < keys.len()
            invariant_except_break
                !found,
            invariant
                p <= keys@.len(),
                ks == strings_view(keys@),
                forall|j: int| 0 <= j < p ==> text_lt(#[trigger] ks[j], x@),
            ensures
                p <= keys@.len(),
                found ==> p < keys@.len() && ks[p as int] == x@,
                !found ==> forall|j: int| 0 <= j < p ==> text_lt(#[trigger] ks[j], x@),
                !found && p < keys@.len() ==> text_lt(x@, ks[p as int]),
            decreases keys@.len() - p,
        {
            assert(ks[p as int] == keys@[p as int]@);
            if str_eq(keys[p].as_str(), x.as_str()) {
                found = true;
                break;
            }
            if str_lt(x.as_str(), keys[p].as_str()) {
                break;
            }
            proof {
                lemma_text_lt_total(ks[p as int], x@);
            }
            p = p + 1;
        }
        if found {
            let c = counts[p];
            proof {
                assert(count_of(next, keys@[p as int]@) == count_of(pre, keys@[p as int]@) + 1);
                assert(c <= i) by {
                    lemma_count_bound(pre, keys@[p as int]@);
                }
            }
            counts.set(p, c + 1);
            proof {
                assert forall|j: int| 0 <= j < keys@.len() implies #[trigger] counts@[j] == count_of(next, keys@[j]@) by {
                    if j != p {
                        if keys@[j]@ == x@ {
                            if j < p {
                                assert(text_lt(ks[j], ks[p as int]));
                            } else {
                                assert(text_lt(ks[p as int], ks[j]));
                            }
                            lemma_text_lt_irreflexive(x@);
                        }
                    }
                }
                assert forall|y: Seq<char>| strings_view(keys@).contains(y) <==> next.contains(y) by {
                    if y == x@ {
                        assert(next[i as int] == x@);
                    }
                    if pre.contains(y) {
                        let k = choose|k: int| 0 <= k < pre.len() && pre[k] == y;
                        assert(next[k] == y);
                    }
                    if next.contains(y) && y != x@ {
                        let k = choose|k: int| 0 <= k < next.len() && next[k] == y;
                        assert(pre[k] == y);
                    }
                }
            }
        } else {
            let ghost old_counts = counts@;
            let ghost old_keys = keys@;
            proof {
                assert(!ks.contains(x@)) by {
                    if ks.contains(x@) {
                        let k = choose|k: int| 0 <= k < ks.len() && ks[k] == x@;
                        lemma_text_lt_irreflexive(x@);
                        if k >= p {
                            if k > p {
                                lemma_text_lt_trans(x@, ks[p as int], ks[k]);
                            }
                        }
                    }
                }
                assert(!pre.contains(x@));
                lemma_count_absent(pre, x@);
            }
            keys.insert(p, x.clone());
            counts.insert(p, 1);
            proof {
                let nks = strings_view(keys@);
                assert(nks =~= ks.insert(p as int, x@));
                assert forall|a: int, b: int| 0 <= a < b < nks.len() implies text_lt(#[trigger] nks[a], #[trigger] nks[b]) by {
                    if b == p {
                        assert(nks[a] == ks[a]);
                    } else if a == p {
                        assert(nks[b] == ks[b - 1]);
                        if b - 1 > p {
                            lemma_text_lt_trans(x@, ks[p as int], ks[b - 1]);
                        }
                    } else if a < p && b > p {
                        assert(nks[a] == ks[a]);
                        assert(nks[b] == ks[b - 1]);
                        if b - 1 > a {
                        }
                    } else if a > p {
                        assert(nks[a] == ks[a - 1]);
                        assert(nks[b] == ks[b - 1]);
                    } else {
                        assert(nks[a] == ks[a]);
                        assert(nks[b] == ks[b]);
                    }
                }
                assert forall|j: int| 0 <= j < keys@.len() implies #[trigger] counts@[j] == count_of(next, keys@[j]@) by {
                    if j < p {
                        assert(keys@[j] == old_keys[j]);
                        assert(counts@[j] == old_counts[j]);
                        assert(ks[j] != x@) by {
                            lemma_text_lt_irreflexive(x@);
                        }
                    } else if j > p {
                        assert(keys@[j] == old_keys[j - 1]);
                        assert(counts@[j] == old_counts[j - 1]);
                        assert(ks[j - 1] != x@) by {
                            lemma_text_lt_irreflexive(x@);
                            if j - 1 > p {
                                lemma_text_lt_trans(x@, ks[p as int], ks[j - 1]);
                            }
                        }
                    }
                }
                assert forall|y: Seq<char>| nks.contains(y) <==> next.contains(y) by {
                    if y == x@ {
                        assert(next[i as int] == x@);
                        assert(nks[p as int] == x@);
                    }
                    if pre.contains(y) {
                        let k = choose|k: int| 0 <= k < pre.len() && pre[k] == y;
                        assert(next[k] == y);
                    }
                    if next.contains(y) && y != x@ {
                        let k = choose|k: int| 0 <= k < next.len() && next[k] == y;
                        assert(pre[k] == y);
                    }
                    if ks.contains(y) {
                        let k = choose|k: int| 0 <= k < ks.len() && ks[k] == y;
                        if k < p {
                            assert(nks[k] == y);
                        } else {
                            assert(nks[k + 1] == y);
                        }
                    }
                    if nks.contains(y) && y != x@ {
                        let k = choose|k: int| 0 <= k < nks.len() && nks[k] == y;
                        if k < p {
                            assert(ks[k] == y);
                        } else {
                            assert(ks[k - 1] == y);
                        }
                    }
                }
            }
        }
        i = i + 1;
    }
    let mut out: Vec<String> = Vec::new();
    let mut j: usize = 0;
    while j < keys.len()
        invariant
            j <= keys@.len(),
            counts@.len() == keys@.len(),
            out@.len() == j,
            forall|k: int| 0 <= k < j ==> (#[trigger] out@[k])@ == control_line(keys@[k]@, counts@[k] as nat),
        decreases keys@.len() - j,
    {
        let mut line = keys[j].clone();
        line.append(" x");
        push_dec_u64(&mut line, counts[j] as u64);
        out.push(line);
        j = j + 1;
    }
    proof {
        assert(all.subrange(0, all.len() as int) =~= all);
        let ks = strings_view(keys@);
        assert forall|k: int| 0 <= k < ks.len() implies strings_view(out@)[k] == control_line(ks[k], count_of(all, ks[k])) by {
        }
    }
    out
}

proof fn lemma_count_bound(s: Seq<Seq<char>>, x: Seq<char>)
    ensures
        count_of(s, x) <= s.len(),
    decreases s.len(),
{
    if s.len() > 0 {
        lemma_count_bound(s.drop_last(), x);
    }
}

proof fn lemma_count_absent(s: Seq<Seq<char>>, x: Seq<char>)
    requires
        !s.contains(x),
    ensures
        count_of(s, x) == 0,
    decreases s.len(),
{
    if s.len() > 0 {
        assert(!s.drop_last().contains(x)) by {
            if s.drop_last().contains(x) {
                let k = choose|k: int| 0 <= k < s.drop_last().len() && s.drop_last()[k] == x;
                assert(s[k] == x);
            }
        }
        assert(s.last() != x) by {
            if s.last() == x {
                assert(s[s.len() - 1] == x);
            }
        }
        lemma_count_absent(s.drop_last(), x);
    }
}

/// The name and the body together hold at most the tokens they come from.
pub proof fn lemma_split_len(ts: Seq<SpecMsbToken>, i: int, in_name: bool)
    requires
        0 <= i <= ts.len(),
    ensures
        split_from(ts, i, in_name).0.len() + split_from(ts, i, in_name).1.len() <= ts.len() - i,
    decreases ts.len() - i,
{
    if i < ts.len() {
        lemma_split_len(ts, i + 1, true);
        lemma_split_len(ts, i + 1, false);
    }
}

/// A token that opens or closes the name run, or ends the message.
pub open spec fn section_marker(t: SpecMsbToken) -> bool {
    t.text == "begin_name_run()"@ || t.text == "end_name_run()"@ || t.text == "end()"@
}

/// Whether the name run is open at token `i`: the closest earlier token
/// that opens or closes it opens it (and no such token means closed).
pub open spec fn name_run_open_before(ts: Seq<SpecMsbToken>, i: int) -> bool
    decreases i,
{
    if i <= 0 {
        false
    } else if ts[i - 1].text == "begin_name_run()"@ {
        true
    } else if ts[i - 1].text == "end_name_run()"@ {
        false
    } else {
        name_run_open_before(ts, i - 1)
    }
}

/// A token that opens or closes the name run.
pub open spec fn name_run_marker(t: SpecMsbToken) -> bool {
    t.text == "begin_name_run()"@ || t.text == "end_name_run()"@
}

/// The name run is open at token `i` exactly when some earlier token opens
/// it and no token between that one and `i` opens or closes it.
pub proof fn lemma_name_run_open_closest(ts: Seq<SpecMsbToken>, i: int)
    requires
        0 <= i <= ts.len(),
    ensures
        name_run_open_before(ts, i) <==> exists|j: int|
            0 <= j < i && #[trigger] ts[j].text == "begin_name_run()"@ && forall|m: int|
                j < m < i ==> !name_run_marker(#[trigger] ts[m]),
    decreases i,
{
    if i > 0 {
        let t = ts[i - 1];
        if t.text == "begin_name_run()"@ {
            assert(ts[i - 1].text == "begin_name_run()"@);
            assert(forall|m: int| i - 1 < m < i ==> !name_run_marker(#[trigger] ts[m]));
        } else if t.text == "end_name_run()"@ {
            assert forall|j: int| 0 <= j < i && #[trigger] ts[j].text == "begin_name_run()"@ implies !(forall|m: int|
                j < m < i ==> !name_run_marker(#[trigger] ts[m])) by {
                assert(j < i - 1);
                assert(name_run_marker(ts[i - 1]));
            }
        } else {
            lemma_name_run_open_closest(ts, i - 1);
            if name_run_open_before(ts, i - 1) {
                let j = choose|j: int|
                    0 <= j < i - 1 && #[trigger] ts[j].text == "begin_name_run()"@ && forall|m: int|
                        j < m < i - 1 ==> !name_run_marker(#[trigger] ts[m]);
                assert(forall|m: int| j < m < i ==> !name_run_marker(#[trigger] ts[m])) by {
                    assert(!name_run_marker(ts[i - 1]));
                }
            } else {
                assert forall|j: int| 0 <= j < i && #[trigger] ts[j].text == "begin_name_run()"@ implies !(forall|m: int|
                    j < m < i ==> !name_run_marker(#[trigger] ts[m])) by {
                    assert(j != i - 1);
                    if forall|m: int| j < m < i ==> !name_run_marker(#[trigger] ts[m]) {
                        assert(forall|m: int| j < m < i - 1 ==> !name_run_marker(#[trigger] ts[m]));
                    }
                }
            }
        }
    }
}

/// The tokens among the first `n` that are no marker and lie inside the
/// name run (`name`) or outside it (`!name`), in stream order.
pub open spec fn section_tokens(ts: Seq<SpecMsbToken>, n: int, name: bool) -> Seq<SpecMsbToken>
    decreases n,
{
    if n <= 0 {
        Seq::empty()
    } else if !section_marker(ts[n - 1]) && name_run_open_before(ts, n - 1) == name {
        section_tokens(ts, n - 1, name).push(ts[n - 1])
    } else {
        section_tokens(ts, n - 1, name)
    }
}

proof fn lemma_split_suffix(ts: Seq<SpecMsbToken>, i: int)
    requires
        0 <= i <= ts.len(),
    ensures
        section_tokens(ts, i, true) + split_from(ts, i, name_run_open_before(ts, i)).0
            == section_tokens(ts, ts.len() as int, true),
        section_tokens(ts, i, false) + split_from(ts, i, name_run_open_before(ts, i)).1
            == section_tokens(ts, ts.len() as int, false),
    decreases ts.len() - i,
{
    let m = name_run_open_before(ts, i);
    if i == ts.len() {
        assert(section_tokens(ts, i, true) + Seq::<SpecMsbToken>::empty() =~= section_tokens(ts, i, true));
        assert(section_tokens(ts, i, false) + Seq::<SpecMsbToken>::empty() =~= section_tokens(ts, i, false));
    } else {
        lemma_split_suffix(ts, i + 1);
        let t = ts[i];
        let next = name_run_open_before(ts, i + 1);
        let rest = split_from(ts, i + 1, next);
        if section_marker(t) {
            assert(split_from(ts, i, m) == rest);
            assert(section_tokens(ts, i + 1, true) == section_tokens(ts, i, true));
            assert(section_tokens(ts, i + 1, false) == section_tokens(ts, i, false));
        } else {
            assert(next == m);
            if m {
                assert(split_from(ts, i, m) == (seq![t] + rest.0, rest.1));
                assert(section_tokens(ts, i + 1, true) == section_tokens(ts, i, true).push(t));
                assert(section_tokens(ts, i + 1, false) == section_tokens(ts, i, false));
                assert(section_tokens(ts, i, true) + (seq![t] + rest.0)
                    =~= section_tokens(ts, i, true).push(t) + rest.0);
            } else {
                assert(split_from(ts, i, m) == (rest.0, seq![t] + rest.1));
                assert(section_tokens(ts, i + 1, false) == section_tokens(ts, i, false).push(t));
                assert(section_tokens(ts, i + 1, true) == section_tokens(ts, i, true));
                assert(section_tokens(ts, i, false) + (seq![t] + rest.1)
                    =~= section_tokens(ts, i, false).push(t) + rest.1);
            }
        }
    }
}

/// The name part holds, in stream order, exactly the tokens that are no
/// marker and that follow an opening of the name run with no closing in
/// between; the body holds, in order, all other tokens that are no marker.
pub proof fn lemma_split_sections(ts: Seq<SpecMsbToken>)
    ensures
        split_from(ts, 0, false) == (
            section_tokens(ts, ts.len() as int, true),
            section_tokens(ts, ts.len() as int, false),
        ),
{
    lemma_split_suffix(ts, 0);
    assert(section_tokens(ts, 0, true) + split_from(ts, 0, false).0 =~= split_from(ts, 0, false).0);
    assert(section_tokens(ts, 0, false) + split_from(ts, 0, false).1 =~= split_from(ts, 0, false).1);
}

/// The little-endian `i16` at `offset`.
pub open spec fn le_i16(data: Seq<u8>, offset: int) -> i16 {
    let v = le16(data[offset], data[offset + 1]);
    (if v >= 0x8000 {
        v - 0x1_0000
    } else {
        v
    }) as i16
}

/// The sixteen bytes at `base`: eight little-endian `i16` fields.
pub open spec fn spec_glyph_record(data: Seq<u8>, base: int) -> GlyphMetrics {
    GlyphMetrics {
        x_offset: le_i16(data, base),
        y_offset: le_i16(data, base + 2),
        atlas_x: le_i16(data, base + 4),
        atlas_y: le_i16(data, base + 6),
        width: le_i16(data, base + 8),
        height: le_i16(data, base + 10),
        advance_x: le_i16(data, base + 12),
        line_height: le_i16(data, base + 14),
    }
}

fn read_i16_le(data: &[u8], offset: usize) -> (r: i16)
    requires
        offset + 2 <= data@.len(),
    ensures
        r == le_i16(data@, offset as int),
{
    let v = read_u16_le(data, offset);
    if v >= 0x8000 {
        (v as i32 - 0x1_0000) as i16
    } else {
        v as i16
    }
}

/// The glyph metrics file: one sixteen-byte record per glyph; `None` when
/// its size is not a multiple of sixteen.
pub fn parse_glyph_metrics(data: &[u8]) -> (r: Option<Vec<GlyphMetrics>>)
    ensures
        r is None <==> data@.len() % 16 != 0,
        r matches Some(v) ==> {
            &&& v@.len() == data@.len() / 16
            &&& forall|i: int| 0 <= i < v@.len() ==> #[trigger] v@[i] == spec_glyph_record(data@, 16 * i)
        },
{
    if data.len() % 16 != 0 {
        return None;
    }
    let count = data.len() / 16;
    let mut out: Vec<GlyphMetrics> = Vec::new();
    let mut i: usize = 0;
    let mut base: usize = 0;
    while i < count
        invariant
            count == data@.len() / 16,
            data@.len() % 16 == 0,
            i <= count,
            base == 16 * i,
            base + 16 * (count - i) == data@.len(),
            data@.len() <= usize::MAX,
            out@.len() == i,
            forall|j: int| 0 <= j < i ==> #[trigger] out@[j] == spec_glyph_record(data@, 16 * j),
        decreases count - i,
    {
        assert(base + 16 <= data@.len());
        let next_base = base + 16;
        let m = GlyphMetrics {
            x_offset: read_i16_le(data, base),
            y_offset: read_i16_le(data, base + 2),
            atlas_x: read_i16_le(data, base + 4),
            atlas_y: read_i16_le(data, base + 6),
            width: read_i16_le(data, base + 8),
            height: read_i16_le(data, base + 10),
            advance_x: read_i16_le(data, base + 12),
            line_height: read_i16_le(data, base + 14),
        };
        out.push(m);
        base = next_base;
        i = i + 1;
    }
    Some(out)
}

} // verus!
