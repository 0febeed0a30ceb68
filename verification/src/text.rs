//! Character-level text helpers: ASCII case-insensitive comparison and
//! splitting a line on a separator character.

use vstd::prelude::*;
use vstd::string::*;

verus! {

/// Code point of `c`, with an ASCII upper-case letter folded to lower case.
pub open spec fn lower_code(c: char) -> u32 {
    if 65 <= (c as u32) && (c as u32) <= 90 {
        ((c as u32) + 32) as u32
    } else {
        c as u32
    }
}

/// ASCII case-insensitive equality of two character strings.
pub open spec fn seq_eq_ci(a: Seq<char>, b: Seq<char>) -> bool {
    a.len() == b.len() && (forall|i: int| 0 <= i < a.len() ==> lower_code(a[i]) == lower_code(b[i]))
}

fn lower_char_code(c: char) -> (r: u32)
    ensures
        r == lower_code(c),
{
    let u = c as u32;
    if 65 <= u && u <= 90 {
        u + 32
    } else {
        u
    }
}

/// Compares two strings, ignoring ASCII case.
pub fn str_eq_ci(a: &str, b: &str) -> (r: bool)
    ensures
        r == seq_eq_ci(a@, b@),
{
    let alen = a.unicode_len();
    let blen = b.unicode_len();
    if alen != blen {
        return false;
    }
    let mut i: usize = 0;
    while i < alen
        invariant
            alen == a@.len(),
            blen == b@.len(),
            alen == blen,
            i <= alen,
            forall|j: int| 0 <= j < i ==> lower_code(a@[j]) == lower_code(b@[j]),
        decreases alen - i,
    {
        let la = lower_char_code(a.get_char(i));
        let lb = lower_char_code(b.get_char(i));
        if la != lb {
            return false;
        }
        i = i + 1;
    }
    true
}

/// Compares two strings character for character.
pub fn str_eq(a: &str, b: &str) -> (r: bool)
    ensures
        r == (a@ == b@),
{
    let alen = a.unicode_len();
    let blen = b.unicode_len();
    if alen != blen {
        return false;
    }
    let mut i: usize = 0;
    while i < alen
        invariant
            alen == a@.len(),
            blen == b@.len(),
            alen == blen,
            i <= alen,
            forall|j: int| 0 <= j < i ==> a@[j] == b@[j],
        decreases alen - i,
    {
        if a.get_char(i) != b.get_char(i) {
            return false;
        }
        i = i + 1;
    }
    assert(a@ =~= b@);
    true
}

/// `p` is an initial segment of `s`.
pub open spec fn is_prefix(p: Seq<char>, s: Seq<char>) -> bool {
    p.len() <= s.len() && p == s.take(p.len() as int)
}

/// Whether `s` starts with `p`.
pub fn str_starts_with(s: &str, p: &str) -> (r: bool)
    ensures
        r == is_prefix(p@, s@),
{
    let plen = p.unicode_len();
    let slen = s.unicode_len();
    if plen > slen {
        return false;
    }
    let mut i: usize = 0;
    while i < plen
        invariant
            plen == p@.len(),
            slen == s@.len(),
            plen <= slen,
            i <= plen,
            forall|j: int| 0 <= j < i ==> p@[j] == s@[j],
        decreases plen - i,
    {
        if p.get_char(i) != s.get_char(i) {
            assert(p@[i as int] != s@.take(plen as int)[i as int]);
            return false;
        }
        i = i + 1;
    }
    assert(p@ =~= s@.take(plen as int));
    true
}

/// Index of the first occurrence of `c` in `s`, or `-1` when `c` is absent.
pub open spec fn first_index(s: Seq<char>, c: char) -> int
    decreases s.len(),
{
    if s.len() == 0 {
        -1
    } else if s[0] == c {
        0
    } else {
        let r = first_index(s.drop_first(), c);
        if r < 0 {
            -1
        } else {
            r + 1
        }
    }
}

pub proof fn lemma_first_index_range(s: Seq<char>, c: char)
    ensures
        first_index(s, c) >= 0 ==> {
            &&& first_index(s, c) < s.len()
            &&& s[first_index(s, c)] == c
            &&& forall|j: int| 0 <= j < first_index(s, c) ==> s[j] != c
        },
        first_index(s, c) < 0 ==> (forall|j: int| 0 <= j < s.len() ==> s[j] != c),
    decreases s.len(),
{
    if s.len() > 0 && s[0] != c {
        lemma_first_index_range(s.drop_first(), c);
        let r = first_index(s.drop_first(), c);
        if r >= 0 {
            assert(s[r + 1] == s.drop_first()[r]);
            assert forall|j: int| 0 <= j < r + 1 implies s[j] != c by {
                if j > 0 {
                    assert(s[j] == s.drop_first()[j - 1]);
                }
            }
        } else {
            assert forall|j: int| 0 <= j < s.len() implies s[j] != c by {
                if j > 0 {
                    assert(s[j] == s.drop_first()[j - 1]);
                }
            }
        }
    }
}

pub proof fn lemma_first_index_found(s: Seq<char>, c: char, i: int)
    requires
        0 <= i < s.len(),
        s[i] == c,
        forall|j: int| 0 <= j < i ==> s[j] != c,
    ensures
        first_index(s, c) == i,
    decreases i,
{
    if i > 0 {
        assert(forall|j: int| 0 <= j < s.drop_first().len() ==> s.drop_first()[j] == s[j + 1]);
        lemma_first_index_found(s.drop_first(), c, i - 1);
    }
}

pub proof fn lemma_first_index_absent(s: Seq<char>, c: char)
    requires
        forall|j: int| 0 <= j < s.len() ==> s[j] != c,
    ensures
        first_index(s, c) == -1,
    decreases s.len(),
{
    if s.len() > 0 {
        assert(forall|j: int| 0 <= j < s.drop_first().len() ==> s.drop_first()[j] == s[j + 1]);
        lemma_first_index_absent(s.drop_first(), c);
    }
}

/// The pieces of `s` between occurrences of the separator `sep`, in order.
/// A string without the separator is one piece; each separator ends a piece,
/// so `n` separators give `n + 1` pieces, empty pieces included.
pub open spec fn spec_split(s: Seq<char>, sep: char) -> Seq<Seq<char>>
    decreases s.len(),
    via spec_split_dec
{
    let i = first_index(s, sep);
    if i < 0 {
        seq![s]
    } else {
        seq![s.take(i)] + spec_split(s.skip(i + 1), sep)
    }
}

#[via_fn]
proof fn spec_split_dec(s: Seq<char>, sep: char) {
    lemma_first_index_range(s, sep);
}

/// Splits `s` at each occurrence of `sep`.
pub fn split_str(s: &str, sep: char) -> (r: Vec<String>)
    ensures
        r.deep_view() == spec_split(s@, sep),
        r@.len() >= 1,
    decreases s@.len(),
{
    let len = s.unicode_len();
    let mut i: usize = 0;
    while i < len && s.get_char(i) != sep
        invariant
            len == s@.len(),
            i <= len,
            forall|j: int| 0 <= j < i ==> s@[j] != sep,
        decreases len - i,
    {
        i = i + 1;
    }
    if i == len {
        proof {
            lemma_first_index_absent(s@, sep);
        }
        let mut r: Vec<String> = Vec::new();
        r.push(s.to_owned());
        assert(r.deep_view() =~= spec_split(s@, sep));
        r
    } else {
        proof {
            lemma_first_index_found(s@, sep, i as int);
        }
        let head = s.substring_char(0, i);
        let tail = s.substring_char(i + 1, len);
        let mut r = split_str(tail, sep);
        r.insert(0, head.to_owned());
        assert(r.deep_view() =~= seq![s@.take(i as int)] + spec_split(s@.skip(i as int + 1), sep));
        r
    }
}

/// `s` without one trailing carriage return.
pub open spec fn strip_cr(s: Seq<char>) -> Seq<char> {
    if s.len() > 0 && s.last() == '\r' {
        s.drop_last()
    } else {
        s
    }
}

/// The lines of `text`: pieces between newlines. A carriage return is
/// dropped only where a newline ended the piece, so a final piece that no
/// newline closed keeps its text as written; a text that ends with a
/// newline has no final empty piece.
pub open spec fn spec_lines(text: Seq<char>) -> Seq<Seq<char>> {
    let pieces = spec_split(text, '\n');
    let ended = pieces.drop_last().map_values(|p: Seq<char>| strip_cr(p));
    if pieces.last().len() == 0 {
        ended
    } else {
        ended.push(pieces.last())
    }
}

/// Splits `text` into lines, as `spec_lines` says.
pub fn split_lines(text: &str) -> (r: Vec<String>)
    ensures
        r.deep_view() == spec_lines(text@),
{
    let mut pieces = split_str(text, '\n');
    let last = match pieces.pop() {
        Some(p) => p,
        None => String::new(),
    };
    let ghost kept = pieces.deep_view();
    let mut out: Vec<String> = Vec::new();
    let mut i: usize = 0;
    while i < pieces.len()
        invariant
            kept == pieces.deep_view(),
            kept.len() == pieces@.len(),
            i <= kept.len(),
            out@.len() == i,
            forall|j: int| 0 <= j < i ==> out.deep_view()[j] == strip_cr(kept[j]),
        decreases kept.len() - i,
    {
        proof {
            assert(kept[i as int] == pieces@[i as int]@);
        }
        let ghost old_out = out@;
        let ghost old_dv = out.deep_view();
        let piece = &pieces[i];
        let len = piece.as_str().unicode_len();
        if len > 0 && piece.as_str().get_char(len - 1) == '\r' {
            out.push(piece.as_str().substring_char(0, len - 1).to_owned());
            proof {
                assert(pieces@[i as int]@.subrange(0, len - 1) =~= strip_cr(kept[i as int]));
                assert(out.deep_view()[i as int] == strip_cr(kept[i as int]));
            }
        } else {
            out.push(piece.clone());
            proof {
                assert(out.deep_view()[i as int] == kept[i as int]);
                assert(out.deep_view()[i as int] == strip_cr(kept[i as int]));
            }
        }
        proof {
            assert forall|j: int| 0 <= j < i + 1 implies out.deep_view()[j] == strip_cr(
                kept[j],
            ) by {
                if j < i {
                    assert(old_dv[j] == strip_cr(kept[j]));
                    assert(out@[j] == old_out[j]);
                    assert(out.deep_view()[j] == out@[j].deep_view());
                    assert(old_dv[j] == old_out[j].deep_view());
                }
            }
        }
        i = i + 1;
    }
    proof {
        assert(out.deep_view() =~= kept.map_values(|p: Seq<char>| strip_cr(p)));
    }
    if last.as_str().unicode_len() > 0 {
        let ghost pre = out.deep_view();
        out.push(last);
        proof {
            assert(out.deep_view() =~= pre.push(spec_split(text@, '\n').last()));
        }
    }
    out
}

} // verus!
