//! Short-filename canonicalization.
//!
//! On the wire a filename is a fixed 11-byte field: eight bytes of base name
//! and three of extension, both space-padded, uppercase. The sender builds
//! that field from a path ([`prepare_filename`]); the receiver turns it back
//! into a lowercase display form ([`parse_filename`]).

use vstd::prelude::*;
use vstd::seq_lib::*;
use crate::protocol::NAME_LEN;

verus! {

/// The space byte used for padding the two name fields.
pub const SPACE: u8 = 0x20;

/// The '.' byte separating base name and extension.
pub const DOT: u8 = 0x2E;

/// The '/' byte separating path components.
pub const SLASH: u8 = 0x2F;

/// ASCII uppercasing of one byte; bytes outside 'a'..='z' pass through.
pub open spec fn to_upper(b: u8) -> u8 {
    if 0x61 <= b && b <= 0x7A {
        (b - 0x20) as u8
    } else {
        b
    }
}

/// ASCII lowercasing of one byte; bytes outside 'A'..='Z' pass through.
pub open spec fn to_lower(b: u8) -> u8 {
    if 0x41 <= b && b <= 0x5A {
        (b + 0x20) as u8
    } else {
        b
    }
}

pub open spec fn upper_seq(s: Seq<u8>) -> Seq<u8> {
    s.map_values(|b: u8| to_upper(b))
}

pub open spec fn lower_seq(s: Seq<u8>) -> Seq<u8> {
    s.map_values(|b: u8| to_lower(b))
}

/// The final component of a path: everything after the last '/'.
pub open spec fn last_component(p: Seq<u8>) -> Seq<u8> {
    match p.index_of_last(SLASH) {
        Some(i) => p.subrange(i + 1, p.len() as int),
        None => p,
    }
}

/// The part of a name before its first '.'; the whole name without one.
pub open spec fn stem_of(f: Seq<u8>) -> Seq<u8> {
    match f.index_of_first(DOT) {
        Some(i) => f.take(i),
        None => f,
    }
}

/// The part of a name between its first '.' and the next '.', if any;
/// empty when the name has no '.'.
pub open spec fn ext_of(f: Seq<u8>) -> Seq<u8> {
    match f.index_of_first(DOT) {
        Some(i) => {
            let tail = f.subrange(i + 1, f.len() as int);
            match tail.index_of_first(DOT) {
                Some(j) => tail.take(j),
                None => tail,
            }
        },
        None => Seq::empty(),
    }
}

/// `s` cut or space-padded on the right to exactly `n` bytes.
pub open spec fn fit_field(s: Seq<u8>, n: nat) -> Seq<u8> {
    if s.len() >= n {
        s.take(n as int)
    } else {
        s + Seq::new((n - s.len()) as nat, |i| SPACE)
    }
}

/// The 11-byte wire form of a path: eight bytes of uppercased stem and three
/// of uppercased first extension of the final component, space-padded.
pub open spec fn short_name(path: Seq<u8>) -> Seq<u8> {
    let f = last_component(path);
    fit_field(upper_seq(stem_of(f)), 8) + fit_field(upper_seq(ext_of(f)), 3)
}

/// `s` with its trailing spaces removed.
pub open spec fn trim_spaces(s: Seq<u8>) -> Seq<u8>
    decreases s.len(),
{
    if s.len() == 0 {
        s
    } else if s.last() == SPACE {
        trim_spaces(s.drop_last())
    } else {
        s
    }
}

/// The display form of an 11-byte wire filename: the lowercased, right-trimmed
/// base, joined to the lowercased, right-trimmed extension by a '.' only when
/// the trimmed extension is non-empty.
pub open spec fn display_name(buf: Seq<u8>) -> Seq<u8> {
    let base = trim_spaces(lower_seq(buf.take(8)));
    let ext = trim_spaces(lower_seq(buf.subrange(8, 11)));
    if ext.len() == 0 {
        base
    } else {
        base + seq![DOT] + ext
    }
}

/// The display form as text: each byte read as the character with that code.
pub open spec fn name_chars(buf: Seq<u8>) -> Seq<char> {
    display_name(buf).map_values(|b: u8| b as char)
}

fn upper_byte(b: u8) -> (r: u8)
    ensures
        r == to_upper(b),
{
    if 0x61 <= b && b <= 0x7A {
        b - 0x20
    } else {
        b
    }
}

fn lower_byte(b: u8) -> (r: u8)
    ensures
        r == to_lower(b),
{
    if 0x41 <= b && b <= 0x5A {
        b + 0x20
    } else {
        b
    }
}

/// Relies on String::push: appends exactly the one character.
#[verifier::external_body]
fn push_char(s: &mut String, c: char)
    ensures
        final(s)@ == old(s)@.push(c),
{
    s.push(c);
}

/// Builds the 11-byte wire form of `path`: the final path component is
/// uppercased and split at its first '.'; up to eight bytes of the part
/// before go to positions 0..8 and up to three bytes of the part after
/// (cut at any further '.') go to positions 8..11, space-padded.
#[verifier::rlimit(50)]
pub fn prepare_filename(path: &[u8]) -> (r: Vec<u8>)
    ensures
        r@ == short_name(path@),
        r@.len() == NAME_LEN,
{
    let len = path.len();

    // Start of the final path component: one past the last '/'.
    let mut start: usize = 0;
    let mut k: usize = 0;
    while k < len
        invariant
            len == path@.len(),
            k <= len,
            start <= k,
            start > 0 ==> path@[start - 1] == SLASH,
            forall|j: int| start <= j < k ==> path@[j] != SLASH,
        decreases len - k,
    {
        if path[k] == SLASH {
            start = k + 1;
        }
        k = k + 1;
    }
    proof {
        path@.index_of_last_ensures(SLASH);
        if start == 0 {
            if path@.index_of_last(SLASH) is Some {
                let i = path@.index_of_last(SLASH).unwrap();
                assert(path@[i] == SLASH);
                assert(false);
            }
            assert(last_component(path@) =~= path@.subrange(0, len as int));
        } else {
            match path@.index_of_last(SLASH) {
                Some(i) => {
                    if i < start - 1 {
                        assert(path@[start - 1] == SLASH);
                        assert(false);
                    }
                    if i > start - 1 {
                        assert(path@[i] != SLASH);
                        assert(false);
                    }
                    assert(last_component(path@) == path@.subrange(start as int, len as int));
                },
                None => {
                    assert(path@[start - 1] != SLASH);
                    assert(false);
                },
            }
        }
    }
    let ghost f = last_component(path@);
    proof {
        assert(f =~= path@.subrange(start as int, len as int));
    }

    // First '.' in the component; `len` marks that there is none.
    let mut dot: usize = len;
    k = start;
    while k < len
        invariant
            len == path@.len(),
            start <= k <= len,
            dot == len || (start <= dot < k && path@[dot as int] == DOT),
            forall|j: int| start <= j < k && j < dot ==> path@[j] != DOT,
        decreases len - k,
    {
        if path[k] == DOT && dot == len {
            dot = k;
        }
        k = k + 1;
    }
    // The stem runs from `start` up to the first '.', or to the end.
    let stem_end: usize = dot;
    proof {
        f.index_of_first_ensures(DOT);
        if dot == len {
            if f.index_of_first(DOT) is Some {
                let i = f.index_of_first(DOT).unwrap();
                assert(f[i] == DOT);
                assert(false);
            }
            assert(stem_of(f) == f);
        } else {
            match f.index_of_first(DOT) {
                Some(i) => {
                    let di = dot - start;
                    if i < di {
                        assert(f[i] != DOT);
                        assert(false);
                    }
                    if i > di {
                        assert(f[di as int] == DOT);
                        assert(false);
                    }
                    assert(stem_of(f) == f.take(di as int));
                },
                None => {
                    assert(f[dot - start] == DOT);
                    assert(false);
                },
            }
        }
    }
    let ghost stem = stem_of(f);
    proof {
        assert(stem =~= path@.subrange(start as int, stem_end as int));
    }

    // End of the extension: the next '.' after the first, or the end.
    let mut ext_end: usize = len;
    if dot < len {
        k = dot + 1;
        while k < len
            invariant
                len == path@.len(),
                dot + 1 <= k <= len,
                ext_end == len || (dot + 1 <= ext_end < k && path@[ext_end as int] == DOT),
                forall|j: int| dot + 1 <= j < k && j < ext_end ==> path@[j] != DOT,
            decreases len - k,
        {
            if path[k] == DOT && ext_end == len {
                ext_end = k;
            }
            k = k + 1;
        }
    }
    let ghost ext = ext_of(f);
    proof {
        if dot == len {
            assert(ext =~= path@.subrange(len as int, len as int));
        } else {
            let tail = f.subrange(dot - start + 1, f.len() as int);
            assert(tail =~= path@.subrange(dot + 1, len as int));
            tail.index_of_first_ensures(DOT);
            if ext_end == len {
                if tail.index_of_first(DOT) is Some {
                    let i = tail.index_of_first(DOT).unwrap();
                    assert(tail[i] == DOT);
                    assert(path@[dot + 1 + i] == DOT);
                    assert(false);
                }
                assert(ext == tail);
            } else {
                match tail.index_of_first(DOT) {
                    Some(i) => {
                        let ei = ext_end - (dot + 1);
                        if i < ei {
                            assert(path@[dot + 1 + i] != DOT);
                            assert(tail[i] == DOT);
                            assert(false);
                        }
                        if i > ei {
                            assert(tail[ei as int] == DOT);
                            assert(path@[ext_end as int] == DOT);
                            assert(false);
                        }
                        assert(ext == tail.take(ei as int));
                    },
                    None => {
                        assert(tail[ext_end - (dot + 1)] == DOT);
                        assert(false);
                    },
                }
            }
        }
    }
    proof {
        if dot < len {
            assert(ext =~= path@.subrange(dot + 1, ext_end as int));
        }
    }

    let mut r: Vec<u8> = Vec::new();
    let mut i: usize = 0;
    while i < 8
        invariant
            len == path@.len(),
            start <= stem_end <= len,
            stem =~= path@.subrange(start as int, stem_end as int),
            i <= 8,
            r@ =~= fit_field(upper_seq(stem), 8).take(i as int),
        decreases 8 - i,
    {
        if i < stem_end - start {
            r.push(upper_byte(path[start + i]));
        } else {
            r.push(SPACE);
        }
        proof {
            let fld = fit_field(upper_seq(stem), 8);
            assert(fld.len() == 8);
            if i < stem_end - start {
                assert(upper_seq(stem)[i as int] == to_upper(stem[i as int]));
                assert(fld[i as int] == to_upper(path@[start + i]));
            } else {
                assert(fld[i as int] == SPACE);
            }
            assert(fld.take(i + 1) =~= fld.take(i as int).push(fld[i as int]));
        }
        i = i + 1;
    }
    let mut j: usize = 0;
    while j < 3
        invariant
            len == path@.len(),
            dot <= len,
            dot < len ==> dot + 1 <= ext_end <= len,
            dot < len ==> ext =~= path@.subrange(dot + 1, ext_end as int),
            dot == len ==> ext =~= Seq::<u8>::empty(),
            j <= 3,
            r@.len() == 8 + j,
            r@.take(8) =~= fit_field(upper_seq(stem_of(f)), 8),
            r@.skip(8) =~= fit_field(upper_seq(ext), 3).take(j as int),
        decreases 3 - j,
    {
        if dot < len && j < ext_end - (dot + 1) {
            r.push(upper_byte(path[dot + 1 + j]));
        } else {
            r.push(SPACE);
        }
        proof {
            let fld = fit_field(upper_seq(ext), 3);
            assert(fld.len() == 3);
            if dot < len && j < ext_end - (dot + 1) {
                assert(upper_seq(ext)[j as int] == to_upper(ext[j as int]));
                assert(fld[j as int] == to_upper(path@[dot + 1 + j]));
            } else {
                assert(fld[j as int] == SPACE);
            }
            assert(fld.take(j + 1) =~= fld.take(j as int).push(fld[j as int]));
        }
        j = j + 1;
    }
    proof {
        assert(r@ =~= r@.take(8) + r@.skip(8));
        assert(r@ == short_name(path@));
    }
    r
}

/// When everything from position `k` on is a space and position `k - 1`, if
/// any, is not, trimming leaves exactly the first `k` bytes.
proof fn lemma_trim_spaces(s: Seq<u8>, k: int)
    requires
        0 <= k <= s.len(),
        forall|j: int| k <= j < s.len() ==> s[j] == SPACE,
        k > 0 ==> s[k - 1] != SPACE,
    ensures
        trim_spaces(s) == s.take(k),
    decreases s.len(),
{
    if s.len() == k {
        if s.len() == 0 {
            assert(trim_spaces(s) == s);
            assert(s.take(k) =~= s);
        } else {
            assert(s.last() != SPACE);
            assert(s.take(k) =~= s);
        }
    } else {
        assert(s.last() == SPACE);
        lemma_trim_spaces(s.drop_last(), k);
        assert(s.drop_last().take(k) =~= s.take(k));
    }
}

/// Turns an 11-byte wire filename into its display form: all bytes
/// lowercased, base (first 8) and extension (last 3) right-trimmed, joined
/// with a '.' only when the trimmed extension is non-empty.
pub fn parse_filename(buffer: &[u8]) -> (r: String)
    requires
        buffer@.len() == NAME_LEN,
    ensures
        r@ == name_chars(buffer@),
{
    let ghost lbase = lower_seq(buffer@.take(8));
    let ghost lext = lower_seq(buffer@.subrange(8, 11));

    let mut base_len: usize = 8;
    while base_len > 0 && buffer[base_len - 1] == SPACE
        invariant
            buffer@.len() == 11,
            base_len <= 8,
            forall|j: int| base_len <= j < 8 ==> buffer@[j] == SPACE,
        decreases base_len,
    {
        base_len = base_len - 1;
    }
    proof {
        assert(forall|j: int| 0 <= j < 8 ==> lbase[j] == to_lower(buffer@[j]));
        assert(forall|j: int| base_len <= j < 8 ==> lbase[j] == SPACE);
        assert(base_len > 0 ==> lbase[base_len - 1] != SPACE);
        lemma_trim_spaces(lbase, base_len as int);
    }

    let mut ext_len: usize = 3;
    while ext_len > 0 && buffer[8 + ext_len - 1] == SPACE
        invariant
            buffer@.len() == 11,
            ext_len <= 3,
            forall|j: int| ext_len <= j < 3 ==> #[trigger] buffer@[8 + j] == SPACE,
        decreases ext_len,
    {
        ext_len = ext_len - 1;
    }
    proof {
        assert(forall|j: int| 0 <= j < 3 ==> #[trigger] lext[j] == to_lower(buffer@[8 + j]));
        assert(forall|j: int| ext_len <= j < 3 ==> lext[j] == SPACE);
        assert(ext_len > 0 ==> lext[ext_len - 1] != SPACE);
        lemma_trim_spaces(lext, ext_len as int);
    }

    let ghost out = display_name(buffer@);
    proof {
        assert(out.map_values(|b: u8| b as char).len() == out.len());
    }

    let mut s = String::new();
    let mut i: usize = 0;
    while i < base_len
        invariant
            buffer@.len() == 11,
            lbase == lower_seq(buffer@.take(8)),
            lbase.len() == 8,
            base_len <= 8,
            i <= base_len,
            trim_spaces(lbase) == lbase.take(base_len as int),
            s@ =~= lbase.take(i as int).map_values(|b: u8| b as char),
        decreases base_len - i,
    {
        push_char(&mut s, lower_byte(buffer[i]) as char);
        proof {
            assert(lbase.take(i + 1) =~= lbase.take(i as int).push(lbase[i as int]));
            assert(lbase.take(i + 1).map_values(|b: u8| b as char)
                =~= lbase.take(i as int).map_values(|b: u8| b as char).push(
                    lbase[i as int] as char));
        }
        i = i + 1;
    }
    if ext_len > 0 {
        push_char(&mut s, DOT as char);
        let mut j: usize = 0;
        while j < ext_len
            invariant
                buffer@.len() == 11,
                lbase == lower_seq(buffer@.take(8)),
                lbase.len() == 8,
                lext == lower_seq(buffer@.subrange(8, 11)),
                lext.len() == 3,
                base_len <= 8,
                ext_len <= 3,
                j <= ext_len,
                trim_spaces(lbase) == lbase.take(base_len as int),
                trim_spaces(lext) == lext.take(ext_len as int),
                s@ =~= (lbase.take(base_len as int) + seq![DOT] + lext.take(j as int))
                    .map_values(|b: u8| b as char),
            decreases ext_len - j,
        {
            push_char(&mut s, lower_byte(buffer[8 + j]) as char);
            proof {
                let pre = lbase.take(base_len as int) + seq![DOT] + lext.take(j as int);
                let post = lbase.take(base_len as int) + seq![DOT] + lext.take(j + 1);
                assert(post =~= pre.push(lext[j as int]));
                assert(post.map_values(|b: u8| b as char)
                    =~= pre.map_values(|b: u8| b as char).push(lext[j as int] as char));
            }
            j = j + 1;
        }
        proof {
            assert(out =~= lbase.take(base_len as int) + seq![DOT] + lext.take(ext_len as int));
        }
    } else {
        proof {
            assert(out =~= lbase.take(base_len as int));
        }
    }
    proof {
        assert(s@ =~= name_chars(buffer@));
    }
    s
}


/// A byte the round-trip law admits in a path's final component: ASCII
/// letters, digits, '.', '_' and '-'.
pub open spec fn allowed_name_byte(b: u8) -> bool {
    (0x41 <= b && b <= 0x5A) || (0x61 <= b && b <= 0x7A) || (0x30 <= b && b <= 0x39)
        || b == DOT || b == 0x5F || b == 0x2D
}

/// `s` clipped to at most `n` bytes.
pub open spec fn clip(s: Seq<u8>, n: nat) -> Seq<u8> {
    if s.len() <= n {
        s
    } else {
        s.take(n as int)
    }
}

/// The lowercase 8.3 truncation of a name: its stem cut to eight bytes and its
/// first extension cut to three, joined with '.' when the cut extension is
/// non-empty.
pub open spec fn eight_three(f: Seq<u8>) -> Seq<u8> {
    let stem = lower_seq(clip(stem_of(f), 8));
    let ext = lower_seq(clip(ext_of(f), 3));
    if ext.len() == 0 {
        stem
    } else {
        stem + seq![DOT] + ext
    }
}

/// Lowering one field of the wire form undoes the uppercasing and exposes the
/// space padding: the field reads as the lowercased clipped input followed by
/// spaces, and trimming leaves exactly the lowercased clipped input.
proof fn lemma_field_round_trip(s: Seq<u8>, n: nat)
    requires
        forall|i: int| 0 <= i < s.len() ==> allowed_name_byte(#[trigger] s[i]),
    ensures
        trim_spaces(lower_seq(fit_field(upper_seq(s), n))) == lower_seq(clip(s, n)),
        lower_seq(clip(s, n)).len() == (if s.len() <= n { s.len() } else { n }),
{
    let w = fit_field(upper_seq(s), n);
    let c = clip(s, n);
    let m = c.len() as int;
    assert(w.len() == n);
    assert(forall|i: int| 0 <= i < m ==> c[i] == s[i]);
    assert(forall|i: int| 0 <= i < m ==> lower_seq(w)[i] == to_lower(to_upper(s[i])));
    assert(forall|i: int| 0 <= i < m ==> to_lower(to_upper(s[i])) == to_lower(s[i]));
    assert(forall|i: int| m <= i < n ==> lower_seq(w)[i] == SPACE);
    assert(forall|i: int| 0 <= i < m ==> lower_seq(c)[i] == to_lower(s[i]));
    if m > 0 {
        assert(allowed_name_byte(s[m - 1]));
        assert(to_lower(s[m - 1]) != SPACE);
        assert(lower_seq(w)[m - 1] != SPACE);
    }
    lemma_trim_spaces(lower_seq(w), m);
    assert(lower_seq(w).take(m) =~= lower_seq(c));
}

/// Filename canonicalization round-trip: for a path whose final component is
/// made of ASCII letters, digits, '.', '_' and '-' (and is 1 to 255 bytes
/// long), parsing the 11-byte wire form the sender prepares yields exactly
/// the lowercase 8.3 truncation of the component's stem and first extension.
pub proof fn lemma_name_round_trip(path: Seq<u8>)
    requires
        1 <= last_component(path).len() <= 255,
        forall|i: int| 0 <= i < last_component(path).len()
            ==> allowed_name_byte(#[trigger] last_component(path)[i]),
    ensures
        display_name(short_name(path)) == eight_three(last_component(path)),
{
    let f = last_component(path);
    let w = short_name(path);
    let stem = stem_of(f);
    let ext = ext_of(f);
    {
        f.index_of_first_ensures(DOT);
        match f.index_of_first(DOT) {
            Some(d) => {
                assert(forall|i: int| 0 <= i < stem.len() ==> #[trigger] stem[i] == f[i]);
                let tail = f.subrange(d + 1, f.len() as int);
                assert(forall|i: int| 0 <= i < tail.len() ==> #[trigger] tail[i] == f[d + 1 + i]);
                assert(forall|i: int| 0 <= i < tail.len()
                    ==> allowed_name_byte(#[trigger] tail[i]));
                tail.index_of_first_ensures(DOT);
                assert(forall|i: int| 0 <= i < ext.len() ==> #[trigger] ext[i] == tail[i]);
                assert(forall|i: int| 0 <= i < ext.len()
                    ==> allowed_name_byte(#[trigger] ext[i]));
            },
            None => {
                assert(stem == f);
                assert(ext.len() == 0);
            },
        }
    }
    assert(forall|i: int| 0 <= i < stem.len() ==> allowed_name_byte(#[trigger] stem[i]));
    let w8 = fit_field(upper_seq(stem), 8);
    let w3 = fit_field(upper_seq(ext), 3);
    assert(w8.len() == 8 && w3.len() == 3);
    assert(w.take(8) =~= w8);
    assert(w.subrange(8, 11) =~= w3);
    lemma_field_round_trip(stem, 8);
    lemma_field_round_trip(ext, 3);
    assert(lower_seq(w.take(8)) =~= lower_seq(w8));
    assert(lower_seq(w.subrange(8, 11)) =~= lower_seq(w3));
    assert(trim_spaces(lower_seq(w.take(8))) == lower_seq(clip(stem, 8)));
    assert(trim_spaces(lower_seq(w.subrange(8, 11))) == lower_seq(clip(ext, 3)));
    if lower_seq(clip(ext, 3)).len() == 0 {
        assert(display_name(w) == eight_three(f));
    } else {
        assert(display_name(w) == eight_three(f));
    }
}

} // verus!
