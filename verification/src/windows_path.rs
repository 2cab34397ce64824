//! A model of how the standard library's `std::path` reads a path string on
//! Windows: its prefix (`C:`, `\\server\share`, the verbatim forms
//! `\\?\C:`, `\\?\UNC\server\share` and `\\?\name`, and the device form
//! `\\.\name`), its root, its components, and from these its parent, its
//! file name, whether it is absolute, and how a relative component is joined
//! onto it.
//!
//! Both `\` and `/` separate components, except after a verbatim prefix:
//! there only `\` does, and `.` is a component of its own.
use vstd::prelude::*;
use crate::text::{chars_of, substring};

verus! {

/// Is `c` a path separator?
pub open spec fn is_sep(c: char) -> bool {
    c == '\\' || c == '/'
}

/// Is `c` an ASCII letter?
pub open spec fn is_ascii_letter(c: char) -> bool {
    (65 <= (c as u32) <= 90) || (97 <= (c as u32) <= 122)
}

/// Does `s` start with a drive prefix such as `C:`?
pub open spec fn has_drive(s: Seq<char>) -> bool {
    s.len() >= 2 && s[1] == ':' && is_ascii_letter(s[0])
}

/// The index of the first separator in `s` at or after `i`, or `s.len()`.
pub open spec fn first_sep_from(s: Seq<char>, i: int) -> int
    decreases s.len() - i,
{
    if i >= s.len() {
        s.len() as int
    } else if is_sep(s[i]) {
        i
    } else {
        first_sep_from(s, i + 1)
    }
}

/// The index of the first `\` in `s` at or after `i`, or `s.len()`.
pub open spec fn first_bs_from(s: Seq<char>, i: int) -> int
    decreases s.len() - i,
{
    if i >= s.len() {
        s.len() as int
    } else if s[i] == '\\' {
        i
    } else {
        first_bs_from(s, i + 1)
    }
}

/// Does `s` start with the verbatim marker `\\?\`, written with `\` only?
pub open spec fn is_verbatim(s: Seq<char>) -> bool {
    s.len() >= 4 && s[0] == '\\' && s[1] == '\\' && s[2] == '?' && s[3] == '\\'
}

/// Does `s` start with `\\?\UNC\`?
pub open spec fn is_verbatim_unc(s: Seq<char>) -> bool {
    &&& is_verbatim(s)
    &&& s.len() >= 8
    &&& s[4] == 'U'
    &&& s[5] == 'N'
    &&& s[6] == 'C'
    &&& is_sep(s[7])
}

/// End of the prefix `\\?\UNC\server\share` (server and share may be empty).
pub open spec fn verbatim_unc_end(s: Seq<char>) -> int {
    let a = first_bs_from(s, 8);
    if a >= s.len() {
        s.len() as int
    } else {
        let b = first_bs_from(s, a + 1);
        if b > a + 1 {
            b
        } else {
            a
        }
    }
}

/// Does `s` start with `\\?\C:`, the drive followed by `\` or nothing?
pub open spec fn is_verbatim_disk(s: Seq<char>) -> bool {
    &&& is_verbatim(s)
    &&& s.len() >= 6
    &&& is_ascii_letter(s[4])
    &&& s[5] == ':'
    &&& (s.len() == 6 || s[6] == '\\')
}

/// Does `s` start with the device marker `\\.\`?
pub open spec fn is_device(s: Seq<char>) -> bool {
    s.len() >= 4 && is_sep(s[0]) && is_sep(s[1]) && s[2] == '.' && is_sep(s[3])
}

/// End of the server name of a `\\server\share` prefix.
pub open spec fn unc_server_end(s: Seq<char>) -> int {
    first_sep_from(s, 2)
}

/// End of the share name of a `\\server\share` prefix.
pub open spec fn unc_share_end(s: Seq<char>) -> int {
    first_sep_from(s, unc_server_end(s) + 1)
}

/// Does `s` start with a `\\server\share` prefix (server and share not
/// empty), being neither verbatim nor a device path?
pub open spec fn has_unc(s: Seq<char>) -> bool {
    &&& s.len() >= 2
    &&& is_sep(s[0])
    &&& is_sep(s[1])
    &&& !is_verbatim(s)
    &&& !is_device(s)
    &&& unc_server_end(s) > 2
    &&& unc_server_end(s) < s.len()
    &&& unc_share_end(s) > unc_server_end(s) + 1
}

/// The length of the prefix of `s` (0 where it has none).
pub open spec fn prefix_len(s: Seq<char>) -> int {
    if has_drive(s) {
        2
    } else if is_verbatim_unc(s) {
        verbatim_unc_end(s)
    } else if is_verbatim_disk(s) {
        6
    } else if is_verbatim(s) {
        first_bs_from(s, 4)
    } else if is_device(s) {
        first_sep_from(s, 4)
    } else if has_unc(s) {
        unc_share_end(s)
    } else {
        0
    }
}

/// Is there a separator right after the prefix?
pub open spec fn has_physical_root(s: Seq<char>) -> bool {
    prefix_len(s) < s.len() && is_sep(s[prefix_len(s)])
}

/// Does the prefix of `s` imply a root: any prefix but a bare drive `C:`?
pub open spec fn has_implicit_root(s: Seq<char>) -> bool {
    prefix_len(s) > 0 && !has_drive(s)
}

/// Has `s` a root, written or implied by its prefix?
pub open spec fn has_root(s: Seq<char>) -> bool {
    has_physical_root(s) || has_implicit_root(s)
}

/// Does `s`, having no root, begin (after its prefix) with a `.` component?
pub open spec fn has_leading_cur_dir(s: Seq<char>) -> bool {
    let p = prefix_len(s);
    &&& !has_root(s)
    &&& p < s.len()
    &&& s[p] == '.'
    &&& (p + 1 == s.len() || is_sep(s[p + 1]))
}

/// Where the components of `s` begin: after the prefix, the root and a
/// leading `.`.
pub open spec fn body_start(s: Seq<char>) -> int {
    prefix_len(s) + (if has_physical_root(s) { 1int } else { 0int }) + (if has_leading_cur_dir(s) {
        1int
    } else {
        0int
    })
}

/// Does `c` separate components: `\` after a verbatim prefix (`vb`), else
/// `\` or `/`?
pub open spec fn is_body_sep(vb: bool, c: char) -> bool {
    if vb {
        c == '\\'
    } else {
        is_sep(c)
    }
}

/// Start of the last segment of `s[lo..hi]`: one past its last separator, or `lo`.
pub open spec fn seg_start(s: Seq<char>, vb: bool, lo: int, hi: int) -> int
    decreases hi - lo,
{
    if hi <= lo {
        lo
    } else if is_body_sep(vb, s[hi - 1]) {
        hi
    } else {
        seg_start(s, vb, lo, hi - 1)
    }
}

/// A segment counts as a component unless it is empty, or `.` outside a
/// verbatim path.
pub open spec fn is_component(seg: Seq<char>, vb: bool) -> bool {
    seg.len() > 0 && (vb || seg != seq!['.'])
}

/// Where the segment before `s[st..]` ends once that segment and one
/// separator are dropped.
pub open spec fn before_seg(lo: int, st: int) -> int {
    if st > lo {
        st - 1
    } else {
        lo
    }
}

pub proof fn lemma_seg_start_bounds(s: Seq<char>, vb: bool, lo: int, hi: int)
    requires
        lo <= hi,
    ensures
        lo <= seg_start(s, vb, lo, hi) <= hi,
    decreases hi - lo,
{
    if hi > lo && !is_body_sep(vb, s[hi - 1]) {
        lemma_seg_start_bounds(s, vb, lo, hi - 1);
    }
}

/// The first separator at or after `i` comes no later than the separator at `j`.
pub proof fn lemma_first_sep_le(s: Seq<char>, i: int, j: int)
    requires
        0 <= i <= j < s.len(),
        is_sep(s[j]),
    ensures
        i <= first_sep_from(s, i) <= j,
    decreases j - i,
{
    if i < j && !is_sep(s[i]) {
        lemma_first_sep_le(s, i + 1, j);
    }
}

/// The first `\` at or after `i` comes no later than the `\` at `j`.
pub proof fn lemma_first_bs_le(s: Seq<char>, i: int, j: int)
    requires
        0 <= i <= j < s.len(),
        s[j] == '\\',
    ensures
        i <= first_bs_from(s, i) <= j,
    decreases j - i,
{
    if i < j && s[i] != '\\' {
        lemma_first_bs_le(s, i + 1, j);
    }
}

/// The last segment of `s[lo..hi]` starts right after the separator at
/// `k - 1` where none follows it.
pub proof fn lemma_seg_start_after(s: Seq<char>, vb: bool, lo: int, hi: int, k: int)
    requires
        lo < k <= hi <= s.len(),
        is_body_sep(vb, s[k - 1]),
        forall|m: int| k <= m < hi ==> !is_body_sep(vb, #[trigger] s[m]),
    ensures
        seg_start(s, vb, lo, hi) == k,
    decreases hi - k,
{
    if hi > k {
        lemma_seg_start_after(s, vb, lo, hi - 1, k);
    }
}

/// The last component of `s[lo..hi]`, as a pair of indices, skipping empty
/// segments (and `.` outside a verbatim path).
pub open spec fn last_component(s: Seq<char>, vb: bool, lo: int, hi: int) -> Option<(int, int)>
    decreases hi - lo,
{
    if hi <= lo {
        None
    } else {
        let st = seg_start(s, vb, lo, hi);
        if is_component(s.subrange(st, hi), vb) {
            Some((st, hi))
        } else {
            proof {
                lemma_seg_start_bounds(s, vb, lo, hi);
            }
            last_component(s, vb, lo, before_seg(lo, st))
        }
    }
}

/// The parent of the path `s`: `None` where `s` is empty or ends in its root
/// or prefix.
pub open spec fn parent(s: Seq<char>) -> Option<Seq<char>> {
    let vb = is_verbatim(s);
    let lo = body_start(s);
    match last_component(s, vb, lo, s.len() as int) {
        Some((st, _)) => {
            let end = match last_component(s, vb, lo, before_seg(lo, st)) {
                Some((_, e)) => e,
                None => lo,
            };
            Some(s.subrange(0, end))
        },
        None => if prefix_len(s) == 0 && has_leading_cur_dir(s) {
            Some(Seq::empty())
        } else {
            None
        },
    }
}

/// Is `seg` a name: neither `.` nor `..`?
pub open spec fn is_normal(seg: Seq<char>) -> bool {
    seg != seq!['.'] && seg != seq!['.', '.']
}

/// The final component of `s`, where that is a name (not `.` or `..`).
pub open spec fn file_name(s: Seq<char>) -> Option<Seq<char>> {
    match last_component(s, is_verbatim(s), body_start(s), s.len() as int) {
        Some((st, e)) => if is_normal(s.subrange(st, e)) {
            Some(s.subrange(st, e))
        } else {
            None
        },
        None => None,
    }
}

/// Is `s` absolute: a prefix with a root (written, or implied by any
/// prefix but a bare drive)?
pub open spec fn is_absolute(s: Seq<char>) -> bool {
    prefix_len(s) > 0 && has_root(s)
}

/// A single relative component: no separator and no drive prefix.
pub open spec fn is_plain_component(name: Seq<char>) -> bool {
    &&& forall|i: int| 0 <= i < name.len() ==> !is_sep(#[trigger] name[i])
    &&& !has_drive(name)
}

/// The first `\` at or after `i` is within `s`, and not before `i`.
pub proof fn lemma_first_bs_from_bound(s: Seq<char>, i: int)
    requires
        0 <= i,
    ensures
        first_bs_from(s, i) <= s.len(),
        i <= s.len() ==> i <= first_bs_from(s, i),
        first_bs_from(s, i) < s.len() ==> s[first_bs_from(s, i)] == '\\',
        forall|m: int| i <= m < first_bs_from(s, i) ==> s[m] != '\\',
    decreases s.len() - i,
{
    if i < s.len() && s[i] != '\\' {
        lemma_first_bs_from_bound(s, i + 1);
    }
}

/// The non-empty `\`-separated pieces of `s` from `i` on, as index pairs,
/// in order.
pub open spec fn pieces_from(s: Seq<char>, i: int) -> Seq<(int, int)>
    decreases s.len() - i,
{
    if i < 0 || i >= s.len() {
        Seq::empty()
    } else {
        proof {
            lemma_first_bs_from_bound(s, i);
        }
        let e = first_bs_from(s, i);
        let rest = if e < s.len() {
            pieces_from(s, e + 1)
        } else {
            Seq::empty()
        };
        if e > i {
            seq![(i, e)] + rest
        } else {
            rest
        }
    }
}

/// The text the pieces `ps` of `s` make, each after a `\`.
pub open spec fn glue(s: Seq<char>, ps: Seq<(int, int)>) -> Seq<char>
    decreases ps.len(),
{
    if ps.len() == 0 {
        Seq::empty()
    } else {
        glue(s, ps.drop_last()) + seq!['\\'] + s.subrange(ps.last().0, ps.last().1)
    }
}

/// The verbatim path `base` with `name` pushed onto it: the path is rebuilt
/// from its prefix, its root and its non-empty pieces; `.` adds nothing, `..`
/// drops a last piece that is a name, anything else is added after a `\`.
pub open spec fn verbatim_join(base: Seq<char>, name: Seq<char>) -> Seq<char> {
    let p = prefix_len(base);
    let root = has_physical_root(base);
    let ps = pieces_from(base, if root { p + 1 } else { p });
    let kept = if name == seq!['.', '.'] && ps.len() > 0 && is_normal(
        base.subrange(ps.last().0, ps.last().1),
    ) {
        ps.drop_last()
    } else {
        ps
    };
    let added = if is_normal(name) {
        seq!['\\'] + name
    } else {
        Seq::empty()
    };
    let body = glue(base, kept) + added;
    base.subrange(0, p) + (if body.len() == 0 && root {
        seq!['\\']
    } else {
        body
    })
}

/// `base` joined with the relative component `name`.  Onto a verbatim path
/// a non-empty `name` is pushed as `verbatim_join` says; otherwise a `\` goes
/// between them unless `base` is empty, ends in a separator or is a bare
/// drive.
pub open spec fn join(base: Seq<char>, name: Seq<char>) -> Seq<char> {
    let need_sep = base.len() > 0 && !is_sep(base.last()) && !(has_drive(base) && base.len()
        == 2);
    if is_verbatim(base) && name.len() > 0 {
        verbatim_join(base, name)
    } else if need_sep {
        base + seq!['\\'] + name
    } else {
        base + name
    }
}

/// The first separator at or after `i` is within `s`.
pub proof fn lemma_first_sep_from_bound(s: Seq<char>, i: int)
    requires
        0 <= i,
    ensures
        first_sep_from(s, i) <= s.len(),
        i <= s.len() ==> i <= first_sep_from(s, i),
    decreases s.len() - i,
{
    if i < s.len() && !is_sep(s[i]) {
        lemma_first_sep_from_bound(s, i + 1);
    }
}

/// The prefix of a path lies within it.
pub proof fn lemma_prefix_len_bound(s: Seq<char>)
    ensures
        0 <= prefix_len(s) <= s.len(),
        prefix_len(s) > 0 ==> prefix_len(s) >= 2,
{
    lemma_first_sep_from_bound(s, 2);
    lemma_first_sep_from_bound(s, 4);
    lemma_first_sep_from_bound(s, unc_server_end(s) + 1);
    lemma_first_bs_from_bound(s, 4);
    lemma_first_bs_from_bound(s, 8);
    lemma_first_bs_from_bound(s, first_bs_from(s, 8) + 1);
}

/// The components of a path begin within it.
pub proof fn lemma_body_start_bound(s: Seq<char>)
    ensures
        0 <= body_start(s) <= s.len(),
{
    lemma_prefix_len_bound(s);
}

/// Where a path has `\` at `a` and `b`, with `8 <= a < b`, its prefix ends
/// no later than `b`.
pub proof fn lemma_prefix_len_le(s: Seq<char>, a: int, b: int)
    requires
        8 <= a < b < s.len(),
        s[a] == '\\',
        s[b] == '\\',
    ensures
        prefix_len(s) <= b,
{
    lemma_first_sep_le(s, 2, a);
    lemma_first_sep_le(s, 4, a);
    lemma_first_bs_le(s, 4, a);
    lemma_first_bs_le(s, 8, a);
    let fs = first_sep_from(s, 2);
    if fs < a {
        lemma_first_sep_le(s, fs + 1, a);
    } else {
        lemma_first_sep_le(s, fs + 1, b);
    }
    let fb = first_bs_from(s, 8);
    if fb < a {
        lemma_first_bs_le(s, fb + 1, a);
    } else {
        lemma_first_bs_le(s, fb + 1, b);
    }
}

/// The last component lies within `s[lo..hi]` and is not empty.
pub proof fn lemma_last_component_bounds(s: Seq<char>, vb: bool, lo: int, hi: int)
    requires
        0 <= lo <= hi <= s.len(),
    ensures
        last_component(s, vb, lo, hi) matches Some((a, b)) ==> lo <= a < b <= hi,
    decreases hi - lo,
{
    if hi > lo {
        lemma_seg_start_bounds(s, vb, lo, hi);
        let st = seg_start(s, vb, lo, hi);
        if !is_component(s.subrange(st, hi), vb) {
            lemma_last_component_bounds(s, vb, lo, before_seg(lo, st));
        }
    }
}

/// The parent of a path is the path's beginning, and shorter than it.
pub proof fn lemma_parent_is_shorter_prefix(s: Seq<char>)
    ensures
        parent(s) matches Some(d) ==> d.len() < s.len() && s.subrange(0, d.len() as int) == d,
{
    let vb = is_verbatim(s);
    let lo = body_start(s);
    lemma_body_start_bound(s);
    lemma_last_component_bounds(s, vb, lo, s.len() as int);
    match last_component(s, vb, lo, s.len() as int) {
        Some((st, _)) => {
            lemma_last_component_bounds(s, vb, lo, before_seg(lo, st));
        },
        None => {},
    }
}

/// The last segment of `s[lo..hi]` starts at `lo` or right after a separator.
pub proof fn lemma_seg_start_after_sep(s: Seq<char>, vb: bool, lo: int, hi: int)
    requires
        lo <= hi,
    ensures
        seg_start(s, vb, lo, hi) == lo || is_body_sep(vb, s[seg_start(s, vb, lo, hi) - 1]),
    decreases hi - lo,
{
    if hi > lo && !is_body_sep(vb, s[hi - 1]) {
        lemma_seg_start_after_sep(s, vb, lo, hi - 1);
    }
}

/// No segment of `s[lo..hi]` is a component: every character is a
/// separator or, outside a verbatim path, a `.` standing alone between
/// separators (or the ends).
pub open spec fn no_component_in(s: Seq<char>, vb: bool, lo: int, hi: int) -> bool {
    forall|k: int|
        #![trigger s[k]]
        lo <= k < hi ==> is_body_sep(vb, s[k]) || (!vb && s[k] == '.' && (k == lo || is_body_sep(
            vb,
            s[k - 1],
        )) && (k + 1 == hi || is_body_sep(vb, s[k + 1])))
}

/// Is `s` bare: nothing but separators and lone `.` pieces after its prefix,
/// its root and a leading `.`, and not a relative path that begins with `.`?
/// The empty path, `C:`, `C:\`, `\` and `\\server\share` are bare.
pub open spec fn is_bare(s: Seq<char>) -> bool {
    &&& no_component_in(s, is_verbatim(s), body_start(s), s.len() as int)
    &&& !(prefix_len(s) == 0 && has_leading_cur_dir(s))
}

/// No separator lies within the last segment of `s[lo..hi]`.
pub proof fn lemma_seg_start_no_sep(s: Seq<char>, vb: bool, lo: int, hi: int)
    requires
        lo <= hi,
    ensures
        forall|m: int| seg_start(s, vb, lo, hi) <= m < hi ==> !is_body_sep(vb, #[trigger] s[m]),
    decreases hi - lo,
{
    if hi > lo && !is_body_sep(vb, s[hi - 1]) {
        lemma_seg_start_no_sep(s, vb, lo, hi - 1);
    }
}

/// `s[lo..hi]` has no last component exactly when no segment of it is a
/// component.
pub proof fn lemma_no_last_component(s: Seq<char>, vb: bool, lo: int, hi: int)
    requires
        0 <= lo <= hi <= s.len(),
    ensures
        last_component(s, vb, lo, hi) is None <==> no_component_in(s, vb, lo, hi),
    decreases hi - lo,
{
    if hi > lo {
        let st = seg_start(s, vb, lo, hi);
        lemma_seg_start_bounds(s, vb, lo, hi);
        lemma_seg_start_after_sep(s, vb, lo, hi);
        lemma_seg_start_no_sep(s, vb, lo, hi);
        let seg = s.subrange(st, hi);
        if is_component(seg, vb) {
            assert(st < hi);
            assert(!is_body_sep(vb, s[st]));
            if !vb && hi - st == 1 {
                assert(s[st] != '.') by {
                    if s[st] == '.' {
                        assert(seg =~= seq!['.']);
                    }
                }
            }
            if !vb && hi - st >= 2 {
                assert(!is_body_sep(vb, s[st + 1]));
            }
            assert(!no_component_in(s, vb, lo, hi));
        } else {
            let h2 = before_seg(lo, st);
            lemma_no_last_component(s, vb, lo, h2);
            if st == hi {
                assert(st > lo);
                assert(is_body_sep(vb, s[hi - 1]));
                assert(h2 == hi - 1);
            } else {
                assert(!vb && seg.len() == 1 && seg[0] == '.') by {
                    if seg.len() != 1 {
                        assert(seg.len() > 0);
                    } else if !vb {
                        assert(seg =~= seq!['.']);
                    }
                }
                assert(s[st] == '.');
                assert(hi == st + 1);
            }
            if no_component_in(s, vb, lo, h2) {
                assert forall|k: int| lo <= k < hi implies #[trigger] is_body_sep(vb, s[k]) || (!vb
                    && s[k] == '.' && (k == lo || is_body_sep(vb, s[k - 1])) && (k + 1 == hi
                    || is_body_sep(vb, s[k + 1]))) by {
                    if k < h2 {
                        if k + 1 == h2 {
                            assert(is_body_sep(vb, s[h2]));
                        }
                    }
                }
            }
            if no_component_in(s, vb, lo, hi) {
                assert forall|k: int| lo <= k < h2 implies #[trigger] is_body_sep(vb, s[k]) || (!vb
                    && s[k] == '.' && (k == lo || is_body_sep(vb, s[k - 1])) && (k + 1 == h2
                    || is_body_sep(vb, s[k + 1]))) by {
                    assert(is_body_sep(vb, s[h2]));
                }
            }
        }
    }
}

/// A path has no parent exactly when it is bare.
pub proof fn lemma_no_parent_iff_bare(s: Seq<char>)
    ensures
        parent(s) is None <==> is_bare(s),
{
    lemma_body_start_bound(s);
    lemma_no_last_component(s, is_verbatim(s), body_start(s), s.len() as int);
}

/// A path that is empty, or nothing but a prefix (such as `C:` or
/// `\\server\share`) and its root, has no parent.
pub proof fn lemma_prefix_and_root_have_no_parent(s: Seq<char>)
    requires
        s.len() == prefix_len(s) + (if has_physical_root(s) {
            1int
        } else {
            0int
        }),
    ensures
        is_bare(s),
        parent(s) is None,
{
    lemma_prefix_len_bound(s);
    assert(body_start(s) == s.len());
    lemma_no_parent_iff_bare(s);
}

/// A folder path of plain pieces: it neither starts nor ends with a
/// separator, does not end with `:`, has no two separators in a row, and
/// no piece between separators is `.` or `..`.
pub open spec fn is_plain_folder(d: Seq<char>) -> bool {
    &&& d.len() > 0
    &&& !is_sep(d[0])
    &&& !is_sep(d.last())
    &&& d.last() != ':'
    &&& forall|i: int| 0 <= i < d.len() - 1 ==> !(is_sep(#[trigger] d[i]) && is_sep(d[i + 1]))
    &&& forall|a: int, b: int|
        #![trigger d.subrange(a, b)]
        0 <= a < b <= d.len() && (a == 0 || is_sep(d[a - 1])) && (b == d.len() || is_sep(d[b]))
            && (forall|k: int| a <= k < b ==> !is_sep(d[k])) ==> d.subrange(a, b) != seq!['.']
            && d.subrange(a, b) != seq!['.', '.']
}

/// A file name: not empty, no separator, and not `.` or `..`.
pub open spec fn is_plain_name(f: Seq<char>) -> bool {
    &&& f.len() > 0
    &&& forall|i: int| 0 <= i < f.len() ==> !is_sep(#[trigger] f[i])
    &&& f != seq!['.']
    &&& f != seq!['.', '.']
}

/// The parent of a plain folder joined with a file name by `\` is that folder.
pub proof fn lemma_parent_of_folder_and_name(d: Seq<char>, f: Seq<char>)
    requires
        is_plain_folder(d),
        is_plain_name(f),
    ensures
        parent(d + seq!['\\'] + f) == Some(d),
        file_name(d + seq!['\\'] + f) == Some(f),
{
    let s = d + seq!['\\'] + f;
    let n = d.len() as int;
    let len = s.len() as int;
    assert(len == n + 1 + f.len());
    assert(forall|i: int| 0 <= i < n ==> s[i] == d[i]);
    assert(s[n] == '\\');
    assert(forall|i: int| n + 1 <= i < len ==> s[i] == f[i - n - 1]);
    assert(!has_unc(s));
    assert(!is_verbatim(s) && !is_device(s));
    let lo = body_start(s);
    // The components begin no later than the end of `d`.
    if has_drive(s) {
        assert(n >= 2) by {
            if n == 1 {
                assert(s[1] == '\\');
            }
        }
        assert(n >= 3) by {
            if n == 2 {
                assert(d.last() == s[1]);
            }
        }
        assert(prefix_len(s) == 2);
        if has_physical_root(s) {
            assert(n >= 4) by {
                if n == 3 {
                    assert(d.last() == s[2]);
                }
            }
            assert(lo == 3);
        } else if has_leading_cur_dir(s) {
            assert(lo == 3);
            assert(n >= 3);
        } else {
            assert(lo == 2);
        }
    } else {
        assert(prefix_len(s) == 0);
        assert(!has_physical_root(s));
        if has_leading_cur_dir(s) {
            assert(s[0] == '.');
            assert(is_sep(s[1]));
            assert(n == 1 || is_sep(d[1]));
            assert(d.subrange(0, 1) =~= seq!['.']);
            assert(false);
        }
        assert(lo == 0);
    }
    assert(lo <= n);
    // The last component is `f`.
    assert forall|m: int| n + 1 <= m < len implies !is_sep(#[trigger] s[m]) by {
        assert(s[m] == f[m - n - 1]);
    }
    lemma_seg_start_after(s, false, lo, len, n + 1);
    assert(s.subrange(n + 1, len) =~= f);
    assert(is_component(f, false)) by {
        assert(f.len() > 0);
    }
    assert(last_component(s, false, lo, len) == Some((n + 1, len)));
    assert(before_seg(lo, n + 1) == n);
    // Before it, the path ends with the last piece of `d`.
    if lo < n {
        let k = seg_start(s, false, lo, n);
        assert(!is_sep(s[n - 1])) by {
            assert(s[n - 1] == d.last());
        }
        assert(k == seg_start(s, false, lo, n - 1));
        lemma_seg_start_bounds(s, false, lo, n - 1);
        lemma_seg_start_after_sep(s, false, lo, n);
        let seg = s.subrange(k, n);
        assert(seg.len() > 0);
        if seg == seq!['.'] {
            assert(k == n - 1);
            assert(seg[0] == s[k]);
            assert(seq!['.'][0] == '.');
            assert(d[n - 1] == '.');
            if k > lo {
                assert(is_sep(s[n - 2]));
                assert(is_sep(d[n - 2]));
                assert(d.subrange(n - 1, n) =~= seq!['.']);
                assert(false);
            } else {
                assert(lo == n - 1);
                if has_drive(s) {
                    if has_physical_root(s) {
                        assert(n == 4);
                        assert(is_sep(d[2]));
                        assert(d.subrange(3, 4) =~= seq!['.']);
                        assert(false);
                    } else if has_leading_cur_dir(s) {
                        assert(n == 4);
                        assert(is_sep(s[3]));
                        assert(s[3] == d.last());
                        assert(false);
                    } else {
                        assert(n == 3);
                        assert(s[2] == '.');
                        assert(is_sep(s[3]));
                        assert(has_leading_cur_dir(s));
                        assert(false);
                    }
                } else {
                    assert(n == 1);
                    assert(d.subrange(0, 1) =~= seq!['.']);
                    assert(false);
                }
            }
        }
        assert(is_component(seg, false));
        assert(last_component(s, false, lo, n) == Some((k, n)));
    }
    assert(s.subrange(0, n) =~= d);
    assert(is_normal(f)) by {
        assert(f != seq!['.'] && f != seq!['.', '.']);
    }
}

/// A path is absolute exactly when it has a prefix and, after it, either a
/// separator or a root that the prefix implies (any prefix but a bare drive
/// such as `C:`).
pub proof fn lemma_is_absolute_iff(s: Seq<char>)
    ensures
        is_absolute(s) <==> (prefix_len(s) > 0 && ((prefix_len(s) < s.len() && is_sep(
            s[prefix_len(s)],
        )) || !has_drive(s))),
{
}

/// A drive letter, `:` and a separator begin an absolute path, whatever
/// follows (`D:\` itself among them).
pub proof fn lemma_drive_root_is_absolute(s: Seq<char>)
    requires
        s.len() >= 3,
        is_ascii_letter(s[0]),
        s[1] == ':',
        is_sep(s[2]),
    ensures
        prefix_len(s) == 2,
        is_absolute(s),
{
}

/// A path that starts with neither a separator nor a drive is relative.
pub proof fn lemma_plain_start_is_relative(s: Seq<char>)
    requires
        s.len() == 0 || !is_sep(s[0]),
        !has_drive(s),
    ensures
        prefix_len(s) == 0,
        !is_absolute(s),
{
}

/// Onto a path that is not verbatim, a name is joined with a single `\`
/// between them where the path is not empty, does not end in a separator
/// and is not a bare drive; otherwise the name follows the path directly.
/// The path is always kept as the beginning of the result.
pub proof fn lemma_join_plain(base: Seq<char>, name: Seq<char>)
    requires
        !is_verbatim(base) || name.len() == 0,
    ensures
        base.len() > 0 && !is_sep(base.last()) && !(has_drive(base) && base.len() == 2) ==> join(
            base,
            name,
        ) == base + seq!['\\'] + name,
        base.len() == 0 || is_sep(base.last()) || (has_drive(base) && base.len() == 2) ==> join(
            base,
            name,
        ) == base + name,
        join(base, name).subrange(0, base.len() as int) == base,
{
    assert((base + seq!['\\'] + name).subrange(0, base.len() as int) =~= base);
    assert((base + name).subrange(0, base.len() as int) =~= base);
}

/// Joining a name onto a plain folder gives a path whose parent is that
/// folder and whose file name is that name.
pub proof fn lemma_join_then_parent(d: Seq<char>, f: Seq<char>)
    requires
        is_plain_folder(d),
        is_plain_name(f),
    ensures
        join(d, f) == d + seq!['\\'] + f,
        parent(join(d, f)) == Some(d),
        file_name(join(d, f)) == Some(f),
{
    assert(!is_verbatim(d));
    if has_drive(d) && d.len() == 2 {
        assert(d.last() == d[1]);
    }
    lemma_join_plain(d, f);
    lemma_parent_of_folder_and_name(d, f);
}

fn is_sep_char(c: char) -> (r: bool)
    ensures
        r == is_sep(c),
{
    c == '\\' || c == '/'
}

fn is_body_sep_char(vb: bool, c: char) -> (r: bool)
    ensures
        r == is_body_sep(vb, c),
{
    if vb {
        c == '\\'
    } else {
        is_sep_char(c)
    }
}

fn is_ascii_letter_char(c: char) -> (r: bool)
    ensures
        r == is_ascii_letter(c),
{
    let n = c as u32;
    (65 <= n && n <= 90) || (97 <= n && n <= 122)
}

fn first_sep_from_exec(v: &Vec<char>, i: usize) -> (r: usize)
    requires
        i <= v@.len(),
    ensures
        r as int == first_sep_from(v@, i as int),
        i <= r <= v@.len(),
{
    let mut j = i;
    while j < v.len()
        invariant
            i <= j <= v@.len(),
            first_sep_from(v@, i as int) == first_sep_from(v@, j as int),
        decreases v@.len() - j,
    {
        if is_sep_char(v[j]) {
            return j;
        }
        j = j + 1;
    }
    j
}

fn first_bs_from_exec(v: &Vec<char>, i: usize) -> (r: usize)
    requires
        i <= v@.len(),
    ensures
        r as int == first_bs_from(v@, i as int),
        i <= r <= v@.len(),
{
    let mut j = i;
    while j < v.len()
        invariant
            i <= j <= v@.len(),
            first_bs_from(v@, i as int) == first_bs_from(v@, j as int),
        decreases v@.len() - j,
    {
        if v[j] == '\\' {
            return j;
        }
        j = j + 1;
    }
    j
}

fn has_drive_exec(v: &Vec<char>) -> (r: bool)
    ensures
        r == has_drive(v@),
{
    v.len() >= 2 && v[1] == ':' && is_ascii_letter_char(v[0])
}

fn is_verbatim_exec(v: &Vec<char>) -> (r: bool)
    ensures
        r == is_verbatim(v@),
{
    v.len() >= 4 && v[0] == '\\' && v[1] == '\\' && v[2] == '?' && v[3] == '\\'
}

fn prefix_len_exec(v: &Vec<char>) -> (r: usize)
    ensures
        r as int == prefix_len(v@),
        r <= v@.len(),
{
    proof {
        lemma_prefix_len_bound(v@);
    }
    if has_drive_exec(v) {
        return 2;
    }
    if is_verbatim_exec(v) {
        if v.len() >= 8 && v[4] == 'U' && v[5] == 'N' && v[6] == 'C' && is_sep_char(v[7]) {
            let a = first_bs_from_exec(v, 8);
            if a >= v.len() {
                return v.len();
            }
            let b = first_bs_from_exec(v, a + 1);
            if b > a + 1 {
                return b;
            }
            return a;
        }
        if v.len() >= 6 && is_ascii_letter_char(v[4]) && v[5] == ':' && (v.len() == 6 || v[6]
            == '\\') {
            return 6;
        }
        return first_bs_from_exec(v, 4);
    }
    if v.len() >= 4 && is_sep_char(v[0]) && is_sep_char(v[1]) && v[2] == '.' && is_sep_char(v[3]) {
        return first_sep_from_exec(v, 4);
    }
    if v.len() >= 2 && is_sep_char(v[0]) && is_sep_char(v[1]) {
        let a = first_sep_from_exec(v, 2);
        if a > 2 && a < v.len() {
            let b = first_sep_from_exec(v, a + 1);
            if b > a + 1 {
                return b;
            }
        }
    }
    0
}

fn body_start_exec(v: &Vec<char>) -> (r: usize)
    ensures
        r as int == body_start(v@),
        r <= v@.len(),
{
    proof {
        lemma_body_start_bound(v@);
    }
    let p = prefix_len_exec(v);
    let implicit = p > 0 && !has_drive_exec(v);
    let physical = p < v.len() && is_sep_char(v[p]);
    let mut r = p;
    if physical {
        r = r + 1;
    }
    if !physical && !implicit && p < v.len() && v[p] == '.' && (p + 1 == v.len() || is_sep_char(
        v[p + 1],
    )) {
        r = r + 1;
    }
    r
}

fn seg_start_exec(v: &Vec<char>, vb: bool, lo: usize, hi: usize) -> (r: usize)
    requires
        lo <= hi <= v@.len(),
    ensures
        r as int == seg_start(v@, vb, lo as int, hi as int),
        lo <= r <= hi,
{
    let mut j = hi;
    while j > lo
        invariant
            lo <= j <= hi,
            hi <= v@.len(),
            seg_start(v@, vb, lo as int, hi as int) == seg_start(v@, vb, lo as int, j as int),
        decreases j,
    {
        if is_body_sep_char(vb, v[j - 1]) {
            return j;
        }
        j = j - 1;
    }
    j
}

fn is_component_exec(v: &Vec<char>, vb: bool, st: usize, hi: usize) -> (r: bool)
    requires
        st <= hi <= v@.len(),
    ensures
        r == is_component(v@.subrange(st as int, hi as int), vb),
{
    if st == hi {
        return false;
    }
    if vb {
        return true;
    }
    if hi - st == 1 && v[st] == '.' {
        assert(v@.subrange(st as int, hi as int) =~= seq!['.']);
        return false;
    }
    if hi - st == 1 {
        assert(v@.subrange(st as int, hi as int)[0] != seq!['.'][0]);
    } else {
        assert(v@.subrange(st as int, hi as int).len() != seq!['.'].len());
    }
    true
}

fn is_normal_exec(v: &Vec<char>, st: usize, e: usize) -> (r: bool)
    requires
        st <= e <= v@.len(),
    ensures
        r == is_normal(v@.subrange(st as int, e as int)),
{
    let ghost seg = v@.subrange(st as int, e as int);
    if e - st == 1 {
        assert(seg != seq!['.', '.']) by {
            assert(seg.len() != seq!['.', '.'].len());
        }
        if v[st] == '.' {
            assert(seg =~= seq!['.']);
            return false;
        }
        assert(seg[0] != seq!['.'][0]);
        return true;
    }
    assert(seg != seq!['.']) by {
        assert(seg.len() != seq!['.'].len());
    }
    if e - st == 2 {
        if v[st] == '.' && v[st + 1] == '.' {
            assert(seg =~= seq!['.', '.']);
            return false;
        }
        if v[st] != '.' {
            assert(seg[0] != seq!['.', '.'][0]);
        } else {
            assert(seg[1] != seq!['.', '.'][1]);
        }
        return true;
    }
    assert(seg.len() != seq!['.', '.'].len());
    true
}

fn last_component_exec(v: &Vec<char>, vb: bool, lo: usize, hi: usize) -> (r: Option<
    (usize, usize),
>)
    requires
        lo <= hi <= v@.len(),
    ensures
        match r {
            Some((a, b)) => last_component(v@, vb, lo as int, hi as int) == Some(
                (a as int, b as int),
            ) && lo <= a <= b <= hi,
            None => last_component(v@, vb, lo as int, hi as int) is None,
        },
{
    let mut h = hi;
    while h > lo
        invariant
            lo <= h <= hi <= v@.len(),
            last_component(v@, vb, lo as int, hi as int) == last_component(
                v@,
                vb,
                lo as int,
                h as int,
            ),
        decreases h,
    {
        let st = seg_start_exec(v, vb, lo, h);
        if is_component_exec(v, vb, st, h) {
            return Some((st, h));
        }
        h = if st > lo {
            st - 1
        } else {
            lo
        };
    }
    None
}

/// The parent of `path`, as `std::path::Path::parent` gives it on Windows.
pub fn path_parent(path: &str) -> (r: Option<String>)
    ensures
        match r {
            Some(p) => parent(path@) == Some(p@),
            None => parent(path@) is None,
        },
{
    let v = chars_of(path);
    let vb = is_verbatim_exec(&v);
    let lo = body_start_exec(&v);
    match last_component_exec(&v, vb, lo, v.len()) {
        Some((st, _)) => {
            let h = if st > lo {
                st - 1
            } else {
                lo
            };
            let end = match last_component_exec(&v, vb, lo, h) {
                Some((_, e)) => e,
                None => lo,
            };
            Some(substring(path, 0, end))
        },
        None => {
            let p = prefix_len_exec(&v);
            if p == 0 && lo == 1 && v[0] == '.' {
                Some(String::new())
            } else {
                None
            }
        },
    }
}

/// The file name of `path`, as `std::path::Path::file_name` gives it on Windows.
pub fn path_file_name(path: &str) -> (r: Option<String>)
    ensures
        match r {
            Some(n) => file_name(path@) == Some(n@),
            None => file_name(path@) is None,
        },
{
    let v = chars_of(path);
    let vb = is_verbatim_exec(&v);
    let lo = body_start_exec(&v);
    match last_component_exec(&v, vb, lo, v.len()) {
        Some((st, e)) => {
            if is_normal_exec(&v, st, e) {
                Some(substring(path, st, e))
            } else {
                None
            }
        },
        None => None,
    }
}

/// Is `path` absolute, as `std::path::Path::is_absolute` says on Windows?
pub fn path_is_absolute(path: &str) -> (r: bool)
    ensures
        r == is_absolute(path@),
{
    let v = chars_of(path);
    let p = prefix_len_exec(&v);
    let drive = has_drive_exec(&v);
    let physical = p < v.len() && is_sep_char(v[p]);
    p > 0 && (physical || !drive)
}

/// The text of the pieces of `v` from `lo` on, each after a `\`; with the
/// start of the text of the last piece, and that piece, where there is one.
fn glue_pieces(v: &Vec<char>, base: &str, lo: usize) -> (r: (String, Option<(usize, usize, usize)>))
    requires
        v@ == base@,
        lo <= v@.len(),
    ensures
        r.0@ == glue(v@, pieces_from(v@, lo as int)),
        match r.1 {
            Some((at, a, b)) => {
                let ps = pieces_from(v@, lo as int);
                &&& ps.len() > 0
                &&& ps.last() == (a as int, b as int)
                &&& a <= b <= v@.len()
                &&& at <= r.0@.len()
                &&& r.0@.subrange(0, at as int) == glue(v@, ps.drop_last())
            },
            None => pieces_from(v@, lo as int).len() == 0,
        },
{
    let ghost all = pieces_from(v@, lo as int);
    let ghost mut acc: Seq<(int, int)> = Seq::empty();
    let mut out = String::new();
    let mut last: Option<(usize, usize, usize)> = None;
    let mut i = lo;
    proof {
        reveal_strlit("\\");
    }
    while i < v.len()
        invariant
            v@ == base@,
            lo <= i <= v@.len(),
            acc + pieces_from(v@, i as int) == all,
            all == pieces_from(v@, lo as int),
            out@ == glue(v@, acc),
            forall|k: int| 0 <= k < acc.len() ==> 0 <= #[trigger] acc[k].0 <= acc[k].1 <= v@.len(),
            match last {
                Some((at, a, b)) => {
                    &&& acc.len() > 0
                    &&& acc.last() == (a as int, b as int)
                    &&& a <= b <= v@.len()
                    &&& at <= out@.len()
                    &&& out@.subrange(0, at as int) == glue(v@, acc.drop_last())
                },
                None => acc.len() == 0,
            },
        decreases v@.len() - i,
    {
        let e = first_bs_from_exec(v, i);
        proof {
            lemma_first_bs_from_bound(v@, i as int);
        }
        let next = if e < v.len() {
            e + 1
        } else {
            v.len()
        };
        assert(pieces_from(v@, i as int) == if e > i {
            seq![(i as int, e as int)] + pieces_from(v@, next as int)
        } else {
            pieces_from(v@, next as int)
        });
        if e > i {
            let ghost old_out = out@;
            let at = out.as_str().unicode_len();
            out.append("\\");
            let piece = substring(base, i, e);
            out.append(piece.as_str());
            proof {
                reveal_strlit("\\");
                let old_acc = acc;
                acc = acc.push((i as int, e as int));
                assert(acc.drop_last() =~= old_acc);
                assert(acc + pieces_from(v@, next as int) =~= old_acc + pieces_from(
                    v@,
                    i as int,
                ));
                assert(glue(v@, acc) == glue(v@, old_acc) + seq!['\\'] + v@.subrange(
                    i as int,
                    e as int,
                ));
                assert(out@ =~= glue(v@, acc));
                assert(out@.subrange(0, at as int) =~= old_out);
            }
            last = Some((at, i, e));
        }
        i = next;
    }
    assert(pieces_from(v@, i as int) == Seq::<(int, int)>::empty());
    assert(acc =~= all);
    (out, last)
}

/// `name` pushed onto the verbatim path `base`.
fn verbatim_join_exec(base: &str, v: &Vec<char>, name: &str) -> (r: String)
    requires
        v@ == base@,
        is_verbatim(base@),
        name@.len() > 0,
    ensures
        r@ == verbatim_join(base@, name@),
{
    proof {
        lemma_prefix_len_bound(v@);
        reveal_strlit("\\");
    }
    let p = prefix_len_exec(v);
    let root = p < v.len() && is_sep_char(v[p]);
    let lo = if root {
        p + 1
    } else {
        p
    };
    let (all, last) = glue_pieces(v, base, lo);
    let nv = chars_of(name);
    let dotdot = nv.len() == 2 && nv[0] == '.' && nv[1] == '.';
    assert(dotdot == (name@ == seq!['.', '.'])) by {
        if name@ == seq!['.', '.'] {
            assert(nv@[0] == seq!['.', '.'][0]);
            assert(nv@[1] == seq!['.', '.'][1]);
        }
        if dotdot {
            assert(name@ =~= seq!['.', '.']);
        }
    }
    let mut body = match last {
        Some((at, a, b)) => {
            if dotdot && is_normal_exec(v, a, b) {
                substring(all.as_str(), 0, at)
            } else {
                all
            }
        },
        None => all,
    };
    if is_normal_exec(&nv, 0, nv.len()) {
        assert(nv@.subrange(0, nv@.len() as int) =~= name@);
        body.append("\\");
        body.append(name);
    } else {
        assert(nv@.subrange(0, nv@.len() as int) =~= name@);
    }
    let mut r = substring(base, 0, p);
    if body.as_str().unicode_len() == 0 && root {
        r.append("\\");
    } else {
        r.append(body.as_str());
    }
    r
}

/// `base` joined with the relative component `name`, as
/// `std::path::Path::join` gives it on Windows.
pub fn path_join(base: &str, name: &str) -> (r: String)
    requires
        is_plain_component(name@),
    ensures
        r@ == join(base@, name@),
{
    let v = chars_of(base);
    if is_verbatim_exec(&v) && name.unicode_len() > 0 {
        return verbatim_join_exec(base, &v, name);
    }
    let need_sep = v.len() > 0 && !is_sep_char(v[v.len() - 1]) && !(has_drive_exec(&v) && v.len()
        == 2);
    let mut r = base.to_owned();
    if need_sep {
        r.append("\\");
        proof {
            reveal_strlit("\\");
        }
    }
    r.append(name);
    r
}

} // verus!
