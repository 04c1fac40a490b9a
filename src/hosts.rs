//! Text transformations of the hosts file: removing the engine's delimited
//! region and building a new one.
use vstd::prelude::*;

use crate::block::BlockManager;
use crate::text::{chars_of, pop_char, push_char};

verus! {

/// First line of the engine's region in the hosts file.
pub const MARKER_START: &'static str = "# ENOUGH BLOCK START";

/// Last line of the engine's region in the hosts file.
pub const MARKER_END: &'static str = "# ENOUGH BLOCK END";

/// The lines of `s`, each with its terminating `'\n'` if it has one. Only the
/// last line may lack the terminator, and no line is empty.
pub open spec fn split_lines(s: Seq<char>) -> Seq<Seq<char>>
    decreases s.len(),
{
    if s.len() == 0 {
        seq![]
    } else {
        let prev = split_lines(s.drop_last());
        if prev.len() > 0 && prev.last().last() != '\n' {
            prev.update(prev.len() - 1, prev.last().push(s.last()))
        } else {
            prev.push(seq![s.last()])
        }
    }
}

/// The lines joined back together.
pub open spec fn concat(lines: Seq<Seq<char>>) -> Seq<char>
    decreases lines.len(),
{
    if lines.len() == 0 {
        seq![]
    } else {
        concat(lines.drop_last()) + lines.last()
    }
}

/// A line as `split_lines` produces it: not empty, and `'\n'` at most as its
/// last character.
pub open spec fn line_ok(l: Seq<char>) -> bool {
    &&& l.len() > 0
    &&& forall|j: int| 0 <= j < l.len() - 1 ==> l[j] != '\n'
}

/// A sequence of lines that `split_lines` could produce: every line but the
/// last is terminated.
pub open spec fn lines_ok(lines: Seq<Seq<char>>) -> bool {
    &&& forall|i: int| 0 <= i < lines.len() ==> line_ok(#[trigger] lines[i])
    &&& forall|i: int| 0 <= i < lines.len() - 1 ==> (#[trigger] lines[i]).last() == '\n'
}

/// `pat` occurs in `l` as a contiguous piece.
pub open spec fn contains(l: Seq<char>, pat: Seq<char>) -> bool {
    exists|i: int| 0 <= i && i + pat.len() <= l.len() && #[trigger] l.subrange(i, i + pat.len()) == pat
}

pub open spec fn is_start_line(l: Seq<char>) -> bool {
    contains(l, MARKER_START@)
}

pub open spec fn is_end_line(l: Seq<char>) -> bool {
    contains(l, MARKER_END@)
}

pub open spec fn is_marker_line(l: Seq<char>) -> bool {
    is_start_line(l) || is_end_line(l)
}

/// The state of the scan that removes regions.
#[derive(PartialEq, Eq, Structural, Clone, Copy)]
pub enum Scan {
    /// Outside any region, with nothing held back.
    Outside,
    /// Outside any region, holding back a blank line: it is dropped if a start
    /// marker follows, as the separator written before a region.
    HeldBlank,
    /// Inside a region.
    Inside,
    /// Just after an end marker: a blank line here is the separator written
    /// after a region, and is dropped.
    AfterEnd,
}

/// The blank line that separates a region from the rest of the file.
pub open spec fn blank() -> Seq<char> {
    seq!['\n']
}

/// The scan's state after reading line `l` in state `st`.
pub open spec fn next_scan(st: Scan, l: Seq<char>) -> Scan {
    if is_start_line(l) {
        Scan::Inside
    } else if is_end_line(l) {
        Scan::AfterEnd
    } else if st == Scan::Inside {
        Scan::Inside
    } else if l == blank() {
        if st == Scan::AfterEnd {
            Scan::Outside
        } else {
            Scan::HeldBlank
        }
    } else {
        Scan::Outside
    }
}

/// The blank line held back in state `st`, if any.
pub open spec fn held(st: Scan) -> Seq<Seq<char>> {
    if st == Scan::HeldBlank {
        seq![blank()]
    } else {
        seq![]
    }
}

/// The lines written out on reading line `l` in state `st`.
pub open spec fn emitted(st: Scan, l: Seq<char>) -> Seq<Seq<char>> {
    if is_start_line(l) {
        seq![]
    } else if is_end_line(l) {
        held(st)
    } else if st == Scan::Inside {
        seq![]
    } else if l == blank() {
        held(st)
    } else {
        held(st).push(l)
    }
}

/// The scan's state after reading `lines` from state `st`.
pub open spec fn scan_after(lines: Seq<Seq<char>>, st: Scan) -> Scan
    decreases lines.len(),
{
    if lines.len() == 0 {
        st
    } else {
        next_scan(scan_after(lines.drop_last(), st), lines.last())
    }
}

/// The lines written out while reading `lines` from state `st`.
pub open spec fn kept(lines: Seq<Seq<char>>, st: Scan) -> Seq<Seq<char>>
    decreases lines.len(),
{
    if lines.len() == 0 {
        seq![]
    } else {
        let prev = lines.drop_last();
        kept(prev, st) + emitted(scan_after(prev, st), lines.last())
    }
}

/// The lines left of `lines` once every region is removed, with the markers
/// and the blank separator lines around it; a blank line still held back at
/// the end is kept.
pub open spec fn output_lines(lines: Seq<Seq<char>>) -> Seq<Seq<char>> {
    kept(lines, Scan::Outside) + held(scan_after(lines, Scan::Outside))
}

/// The text that the scan writes out for `s`.
pub open spec fn scanned(s: Seq<char>) -> Seq<char> {
    concat(output_lines(split_lines(s)))
}

/// `s` with every region of the engine taken out, markers and separators
/// included; every other line is kept as it was, in order. A file that ends
/// right after an end marker holds a region that was appended to a last line
/// without a newline: the newline written for it goes with the region.
pub open spec fn removed(s: Seq<char>) -> Seq<char> {
    let o = scanned(s);
    if scan_after(split_lines(s), Scan::Outside) == Scan::AfterEnd && o.len() > 0 && o.last()
        == '\n' {
        o.drop_last()
    } else {
        o
    }
}

pub proof fn lemma_concat_append(a: Seq<Seq<char>>, b: Seq<Seq<char>>)
    ensures
        concat(a + b) == concat(a) + concat(b),
    decreases b.len(),
{
    if b.len() == 0 {
        assert(a + b =~= a);
        assert(concat(b) =~= seq![]);
        assert(concat(a) + concat(b) =~= concat(a));
    } else {
        assert((a + b).drop_last() =~= a + b.drop_last());
        lemma_concat_append(a, b.drop_last());
        assert(concat(a) + concat(b) =~= concat(a) + concat(b.drop_last()) + b.last());
    }
}

pub proof fn lemma_concat_push(a: Seq<Seq<char>>, l: Seq<char>)
    ensures
        concat(a.push(l)) == concat(a) + l,
{
    assert(a.push(l).drop_last() =~= a);
}

pub proof fn lemma_concat_two(x: Seq<char>, y: Seq<char>)
    ensures
        concat(seq![x, y]) == x + y,
{
    let e = Seq::<Seq<char>>::empty();
    lemma_concat_push(e, x);
    assert(e.push(x) =~= seq![x]);
    lemma_concat_push(seq![x], y);
    assert(seq![x].push(y) =~= seq![x, y]);
    assert(concat(e) + x =~= x);
}

pub proof fn lemma_concat_four(a: Seq<char>, b: Seq<char>, c: Seq<char>, d: Seq<char>)
    ensures
        concat(seq![a, b, c, d]) == a + b + c + d,
{
    lemma_concat_two(a, b);
    lemma_concat_push(seq![a, b], c);
    assert(seq![a, b].push(c) =~= seq![a, b, c]);
    lemma_concat_push(seq![a, b, c], d);
    assert(seq![a, b, c].push(d) =~= seq![a, b, c, d]);
}

/// The lines of `s` are well formed, join back to `s`, and the last one ends
/// with the last character of `s`.
pub proof fn lemma_split_lines(s: Seq<char>)
    ensures
        lines_ok(split_lines(s)),
        concat(split_lines(s)) == s,
        s.len() == 0 <==> split_lines(s).len() == 0,
        s.len() > 0 ==> split_lines(s).last().last() == s.last(),
    decreases s.len(),
{
    if s.len() > 0 {
        let p = s.drop_last();
        lemma_split_lines(p);
        let prev = split_lines(p);
        let r = split_lines(s);
        if prev.len() > 0 && prev.last().last() != '\n' {
            let n = prev.len() - 1;
            assert(r.drop_last() =~= prev.drop_last());
            assert(concat(prev) == concat(prev.drop_last()) + prev.last());
            assert(s =~= p.push(s.last()));
            assert(concat(r) =~= concat(prev) + seq![s.last()]);
            assert forall|i: int| 0 <= i < r.len() implies line_ok(#[trigger] r[i]) by {
                if i == n {
                    assert(line_ok(prev[n]));
                    assert forall|j: int| 0 <= j < r[i].len() - 1 implies r[i][j] != '\n' by {
                        if j < prev[n].len() - 1 {
                            assert(r[i][j] == prev[n][j]);
                        } else {
                            assert(r[i][j] == prev[n].last());
                        }
                    }
                }
            }
            assert forall|i: int| 0 <= i < r.len() - 1 implies (#[trigger] r[i]).last() == '\n' by {
                assert(r[i] == prev[i]);
            }
        } else {
            assert(r.drop_last() =~= prev);
            assert(s =~= p.push(s.last()));
            assert(concat(r) =~= concat(prev) + seq![s.last()]);
            assert forall|i: int| 0 <= i < r.len() implies line_ok(#[trigger] r[i]) by {
                if i < prev.len() {
                    assert(r[i] == prev[i]);
                }
            }
            assert forall|i: int| 0 <= i < r.len() - 1 implies (#[trigger] r[i]).last() == '\n' by {
                assert(r[i] == prev[i]);
            }
        }
    }
}

/// Appending one well-formed line to text that ends at a line boundary adds
/// exactly that line.
pub proof fn lemma_split_append_line(x: Seq<char>, l: Seq<char>)
    requires
        x.len() == 0 || x.last() == '\n',
        line_ok(l),
    ensures
        split_lines(x + l) == split_lines(x).push(l),
    decreases l.len(),
{
    lemma_split_lines(x);
    if l.len() == 1 {
        assert((x + l).drop_last() =~= x);
        assert(seq![l.last()] =~= l);
    } else {
        let l2 = l.drop_last();
        assert(line_ok(l2)) by {
            assert forall|j: int| 0 <= j < l2.len() - 1 implies l2[j] != '\n' by {
                assert(l2[j] == l[j]);
            }
        }
        lemma_split_append_line(x, l2);
        assert((x + l).drop_last() =~= x + l2);
        assert(l2.last() == l[l.len() - 2]);
        assert(l2.push(l.last()) =~= l);
        assert(split_lines(x).push(l2).update(split_lines(x).len() as int, l) =~= split_lines(x).push(l));
    }
}

/// Well-formed lines split back into themselves.
pub proof fn lemma_split_concat(lines: Seq<Seq<char>>)
    requires
        lines_ok(lines),
    ensures
        split_lines(concat(lines)) == lines,
    decreases lines.len(),
{
    if lines.len() == 0 {
        assert(split_lines(seq![]) =~= lines);
    } else {
        let p = lines.drop_last();
        assert(lines_ok(p)) by {
            assert forall|i: int| 0 <= i < p.len() implies line_ok(#[trigger] p[i]) by {
                assert(p[i] == lines[i]);
            }
            assert forall|i: int| 0 <= i < p.len() - 1 implies (#[trigger] p[i]).last() == '\n' by {
                assert(p[i] == lines[i]);
            }
        }
        lemma_split_concat(p);
        lemma_split_lines(concat(p));
        if p.len() > 0 {
            assert(p.last() == lines[p.len() - 1]);
        }
        assert(line_ok(lines[lines.len() - 1]));
        lemma_split_append_line(concat(p), lines.last());
        assert(p.push(lines.last()) =~= lines);
    }
}

pub proof fn lemma_kept_append(a: Seq<Seq<char>>, b: Seq<Seq<char>>, st: Scan)
    ensures
        kept(a + b, st) == kept(a, st) + kept(b, scan_after(a, st)),
        scan_after(a + b, st) == scan_after(b, scan_after(a, st)),
    decreases b.len(),
{
    if b.len() == 0 {
        assert(a + b =~= a);
        assert(kept(a, st) + kept(b, scan_after(a, st)) =~= kept(a, st));
    } else {
        assert((a + b).drop_last() =~= a + b.drop_last());
        assert((a + b).last() == b.last());
        lemma_kept_append(a, b.drop_last(), st);
        let k = kept(a, st);
        let kb = kept(b.drop_last(), scan_after(a, st));
        let e = emitted(scan_after(b.drop_last(), scan_after(a, st)), b.last());
        assert((k + kb) + e =~= k + (kb + e));
    }
}

pub proof fn lemma_concat_held(st: Scan)
    ensures
        concat(held(st)) == (if st == Scan::HeldBlank {
            blank()
        } else {
            Seq::<char>::empty()
        }),
{
    let e = Seq::<Seq<char>>::empty();
    assert(concat(e) =~= Seq::<char>::empty());
    if st == Scan::HeldBlank {
        lemma_concat_push(e, blank());
        assert(e.push(blank()) =~= seq![blank()]);
        assert(concat(e) + blank() =~= blank());
    }
}

/// The blank separator is a well-formed, terminated line and no marker.
pub proof fn lemma_blank_facts()
    ensures
        !is_marker_line(blank()),
        line_ok(blank()),
        blank().last() == '\n',
        blank() == "\n"@,
{
    reveal_strlit("# ENOUGH BLOCK START");
    reveal_strlit("# ENOUGH BLOCK END");
    reveal_strlit("\n");
    assert(blank() =~= "\n"@);
}

/// Each line written on reading `l` is the blank separator or `l` itself; `l`
/// is written only last, when it is no marker and no blank line, and the scan
/// is then outside with nothing held.
pub proof fn lemma_emitted(st: Scan, l: Seq<char>)
    ensures
        forall|j: int|
            0 <= j < emitted(st, l).len() ==> (#[trigger] emitted(st, l)[j]) == blank() || (
            emitted(st, l)[j] == l && !is_marker_line(l) && l != blank() && j == emitted(st, l).len()
                - 1 && next_scan(st, l) == Scan::Outside),
{
    let e = emitted(st, l);
    if !is_start_line(l) && !is_end_line(l) && st != Scan::Inside && l != blank() {
        assert forall|j: int| 0 <= j < e.len() implies (#[trigger] e[j]) == blank() || (e[j] == l
            && !is_marker_line(l) && l != blank() && j == e.len() - 1 && next_scan(st, l)
            == Scan::Outside) by {
            if j < held(st).len() {
                assert(e[j] == held(st)[j]);
            }
        }
    }
}

/// No marker line is written, and the lines written keep the shape of the
/// lines read.
pub proof fn lemma_kept_lines(lines: Seq<Seq<char>>, st: Scan)
    ensures
        forall|i: int| 0 <= i < kept(lines, st).len() ==> !is_marker_line(#[trigger] kept(lines, st)[i]),
        (forall|i: int| 0 <= i < lines.len() ==> line_ok(#[trigger] lines[i])) ==> forall|i: int|
            0 <= i < kept(lines, st).len() ==> line_ok(#[trigger] kept(lines, st)[i]),
        (forall|i: int| 0 <= i < lines.len() ==> (#[trigger] lines[i]).last() == '\n') ==> forall|i: int|
            0 <= i < kept(lines, st).len() ==> (#[trigger] kept(lines, st)[i]).last() == '\n',
    decreases lines.len(),
{
    lemma_blank_facts();
    if lines.len() > 0 {
        let p = lines.drop_last();
        lemma_kept_lines(p, st);
        assert(forall|i: int| 0 <= i < p.len() ==> p[i] == lines[i]);
        let l = lines.last();
        assert(l == lines[lines.len() - 1]);
        let kp = kept(p, st);
        let e = emitted(scan_after(p, st), l);
        lemma_emitted(scan_after(p, st), l);
        let k = kept(lines, st);
        assert(k == kp + e);
        assert forall|i: int| 0 <= i < k.len() implies !is_marker_line(#[trigger] k[i]) by {
            if i < kp.len() {
                assert(k[i] == kp[i]);
            } else {
                assert(k[i] == e[i - kp.len()]);
            }
        }
        if forall|i: int| 0 <= i < lines.len() ==> line_ok(#[trigger] lines[i]) {
            assert forall|i: int| 0 <= i < k.len() implies line_ok(#[trigger] k[i]) by {
                if i < kp.len() {
                    assert(k[i] == kp[i]);
                } else {
                    assert(k[i] == e[i - kp.len()]);
                }
            }
        }
        if forall|i: int| 0 <= i < lines.len() ==> (#[trigger] lines[i]).last() == '\n' {
            assert forall|i: int| 0 <= i < k.len() implies (#[trigger] k[i]).last() == '\n' by {
                if i < kp.len() {
                    assert(k[i] == kp[i]);
                } else {
                    assert(k[i] == e[i - kp.len()]);
                }
            }
        }
    }
}

/// Lines without any marker, read from outside a region, are all written
/// out, a final blank line only once the scan ends.
pub proof fn lemma_kept_clean(lines: Seq<Seq<char>>)
    requires
        forall|i: int| 0 <= i < lines.len() ==> !is_marker_line(#[trigger] lines[i]),
    ensures
        kept(lines, Scan::Outside) + held(scan_after(lines, Scan::Outside)) == lines,
        scan_after(lines, Scan::Outside) == Scan::Outside || scan_after(lines, Scan::Outside)
            == Scan::HeldBlank,
    decreases lines.len(),
{
    if lines.len() > 0 {
        let p = lines.drop_last();
        assert(forall|i: int| 0 <= i < p.len() ==> p[i] == lines[i]);
        lemma_kept_clean(p);
        let l = lines.last();
        assert(!is_marker_line(lines[lines.len() - 1]));
        let sp = scan_after(p, Scan::Outside);
        let kp = kept(p, Scan::Outside);
        if l == blank() {
            assert(kept(lines, Scan::Outside) == kp + held(sp));
            assert(kp + held(sp) + seq![blank()] =~= p.push(l));
        } else {
            assert(kept(lines, Scan::Outside) == kp + held(sp).push(l));
            assert(kp + held(sp).push(l) + Seq::<Seq<char>>::empty() =~= (kp + held(sp)).push(l));
        }
        assert(p.push(l) =~= lines);
    } else {
        assert(kept(lines, Scan::Outside) + held(Scan::Outside) =~= lines);
    }
}

/// The host begins with `www.`.
pub open spec fn has_www(h: Seq<char>) -> bool {
    h.len() >= 4 && h.take(4) == "www."@
}

/// The other name under which the same site is reached: the host without its
/// `www.` prefix if it has one, else the host with that prefix.
pub open spec fn other_form(h: Seq<char>) -> Seq<char> {
    if has_www(h) {
        h.skip(4)
    } else {
        "www."@ + h
    }
}

/// The IPv4 denial line for a host.
pub open spec fn deny_v4(h: Seq<char>) -> Seq<char> {
    "0.0.0.0 "@ + h + "\n"@
}

/// The IPv6 denial line for a host.
pub open spec fn deny_v6(h: Seq<char>) -> Seq<char> {
    "::1 "@ + h + "\n"@
}

/// The four denial lines of one host: both address families, both forms.
pub open spec fn host_lines(h: Seq<char>) -> Seq<Seq<char>> {
    seq![deny_v4(h), deny_v6(h), deny_v4(other_form(h)), deny_v6(other_form(h))]
}

/// The denial lines of all hosts, in order.
pub open spec fn entry_lines(hosts: Seq<Seq<char>>) -> Seq<Seq<char>>
    decreases hosts.len(),
{
    if hosts.len() == 0 {
        seq![]
    } else {
        entry_lines(hosts.drop_last()) + host_lines(hosts.last())
    }
}

/// The lines that a block adds to the hosts file: a blank line, the start
/// marker, the denial lines, the end marker and another blank line.
pub open spec fn region_lines(hosts: Seq<Seq<char>>) -> Seq<Seq<char>> {
    seq!["\n"@, MARKER_START@ + "\n"@] + entry_lines(hosts) + seq![MARKER_END@ + "\n"@, "\n"@]
}

pub open spec fn region(hosts: Seq<Seq<char>>) -> Seq<char> {
    concat(region_lines(hosts))
}

/// The lines of a region that closes the file after a last line that had no
/// newline: as `region_lines`, without the blank line at the end.
pub open spec fn closing_region_lines(hosts: Seq<Seq<char>>) -> Seq<Seq<char>> {
    seq!["\n"@, MARKER_START@ + "\n"@] + entry_lines(hosts) + seq![MARKER_END@ + "\n"@]
}

pub open spec fn closing_region(hosts: Seq<Seq<char>>) -> Seq<char> {
    concat(closing_region_lines(hosts))
}

/// `s` with its last line terminated, so that text appended to it starts a
/// new line.
pub open spec fn terminated(s: Seq<char>) -> Seq<char> {
    if s.len() > 0 && s.last() != '\n' {
        s.push('\n')
    } else {
        s
    }
}

/// The hosts file after a block of `hosts` is applied to `s`: any earlier
/// region is removed and the new one is appended. Where the last line left
/// has no newline, one is added and the region closes the file, so that
/// removal takes that newline away again.
pub open spec fn applied(s: Seq<char>, hosts: Seq<Seq<char>>) -> Seq<char> {
    let r = removed(s);
    if r.len() > 0 && r.last() != '\n' {
        r.push('\n') + closing_region(hosts)
    } else {
        r + region(hosts)
    }
}

pub open spec fn views(v: Seq<String>) -> Seq<Seq<char>> {
    v.map_values(|h: String| h@)
}

/// Whether `pat` occurs in `cs` at position `p`.
fn matches_at(cs: &Vec<char>, p: usize, pat: &Vec<char>) -> (r: bool)
    requires
        p + pat.len() <= cs.len(),
    ensures
        r == (cs@.subrange(p as int, p + pat.len()) == pat@),
{
    let mut j: usize = 0;
    while j < pat.len()
        invariant
            p + pat.len() <= cs.len(),
            j <= pat.len(),
            forall|k: int| 0 <= k < j ==> cs@[p + k] == pat@[k],
        decreases pat.len() - j,
    {
        if cs[p + j] != pat[j] {
            assert(cs@.subrange(p as int, p + pat.len())[j as int] != pat@[j as int]);
            return false;
        }
        j += 1;
    }
    assert(cs@.subrange(p as int, p + pat.len()) =~= pat@);
    true
}

/// Whether `pat` occurs in the part of `cs` from `a` to `b`.
fn span_contains(cs: &Vec<char>, a: usize, b: usize, pat: &Vec<char>) -> (r: bool)
    requires
        a <= b <= cs.len(),
    ensures
        r == contains(cs@.subrange(a as int, b as int), pat@),
{
    let ghost l = cs@.subrange(a as int, b as int);
    if pat.len() == 0 {
        assert(l.subrange(0, 0 + pat@.len() as int) =~= pat@);
        return true;
    }
    if b - a < pat.len() {
        return false;
    }
    let last: usize = b - pat.len();
    let mut p: usize = a;
    while p <= last
        invariant
            a <= p <= last + 1,
            pat.len() > 0,
            last == b - pat.len(),
            a + pat.len() <= b <= cs.len(),
            l == cs@.subrange(a as int, b as int),
            forall|i: int| 0 <= i < p - a ==> #[trigger] l.subrange(i, i + pat.len()) != pat@,
        decreases b - p,
    {
        if matches_at(cs, p, pat) {
            assert(l.subrange(p - a, p - a + pat.len()) =~= cs@.subrange(p as int, p + pat.len()));
            return true;
        }
        assert(l.subrange(p - a, p - a + pat.len()) =~= cs@.subrange(p as int, p + pat.len()));
        p += 1;
    }
    false
}

impl BlockManager {
    /// Removes every region of the engine from `content`: its marker lines,
    /// what stands between them, and the blank line written just before the
    /// start marker and just after the end marker. Every other line is kept
    /// as it was, in order. A start marker switches the scan into a region
    /// and an end marker out of it, so stray or repeated markers do no harm.
    pub fn remove_existing_blocks(content: &str) -> (r: String)
        ensures
            r@ == removed(content@),
    {
        let cs = chars_of(content);
        let start_pat = chars_of(MARKER_START);
        let end_pat = chars_of(MARKER_END);
        let ghost s = content@;
        let mut out = String::new();
        let mut st = Scan::Outside;
        let mut start: usize = 0;
        let mut i: usize = 0;
        while i < cs.len()
            invariant
                cs@ == s,
                start_pat@ == MARKER_START@,
                end_pat@ == MARKER_END@,
                start <= i <= cs.len(),
                start == i || i < cs.len(),
                start == 0 || start == cs.len() || s[start - 1] == '\n',
                forall|j: int| start <= j < i ==> s[j] != '\n',
                out@ == concat(kept(split_lines(s.take(start as int)), Scan::Outside)),
                st == scan_after(split_lines(s.take(start as int)), Scan::Outside),
            decreases cs.len() - i,
        {
            let c = cs[i];
            i += 1;
            if c == '\n' || i == cs.len() {
                let ghost prev = split_lines(s.take(start as int));
                let ghost line = s.subrange(start as int, i as int);
                proof {
                    assert(line_ok(line)) by {
                        assert forall|j: int| 0 <= j < line.len() - 1 implies line[j] != '\n' by {
                            assert(line[j] == s[start + j]);
                        }
                    }
                    assert(s.take(start as int).len() == 0 || s.take(start as int).last() == s[start - 1]);
                    lemma_split_append_line(s.take(start as int), line);
                    assert(s.take(start as int) + line =~= s.take(i as int));
                    assert(split_lines(s.take(i as int)).drop_last() == prev);
                    assert(split_lines(s.take(i as int)).last() == line);
                }
                let is_start = span_contains(&cs, start, i, &start_pat);
                let is_end = span_contains(&cs, start, i, &end_pat);
                let is_blank = i == start + 1 && c == '\n';
                proof {
                    if is_blank {
                        assert(line =~= blank());
                    } else if line == blank() {
                        assert(line.len() == 1);
                        assert(line[0] == s[start as int]);
                    }
                }
                let held_blank = st == Scan::HeldBlank;
                let ghost sp = st;
                let ghost before = out@;
                if is_start {
                    st = Scan::Inside;
                } else if is_end {
                    if held_blank {
                        push_char(&mut out, '\n');
                    }
                    st = Scan::AfterEnd;
                } else if st == Scan::Inside {
                } else if is_blank {
                    if held_blank {
                        push_char(&mut out, '\n');
                    }
                    st = if st == Scan::AfterEnd {
                        Scan::Outside
                    } else {
                        Scan::HeldBlank
                    };
                } else {
                    if held_blank {
                        push_char(&mut out, '\n');
                    }
                    let mut j: usize = start;
                    let ghost base = out@;
                    while j < i
                        invariant
                            cs@ == s,
                            start <= j <= i <= cs.len(),
                            out@ == base + s.subrange(start as int, j as int),
                        decreases i - j,
                    {
                        push_char(&mut out, cs[j]);
                        assert(s.subrange(start as int, j + 1) =~= s.subrange(start as int, j as int).push(
                            cs@[j as int],
                        ));
                        j += 1;
                    }
                    st = Scan::Outside;
                }
                proof {
                    let ts = s.take(i as int);
                    let e = emitted(sp, line);
                    assert(is_start == is_start_line(line));
                    assert(is_end == is_end_line(line));
                    assert(kept(split_lines(ts), Scan::Outside) == kept(prev, Scan::Outside) + e);
                    lemma_concat_append(kept(prev, Scan::Outside), e);
                    lemma_concat_held(sp);
                    lemma_blank_facts();
                    if !is_start && !is_end && sp != Scan::Inside && !is_blank {
                        lemma_concat_push(held(sp), line);
                    }
                    assert(out@ =~= before + concat(e));
                }
                start = i;
            }
        }
        if st == Scan::HeldBlank {
            push_char(&mut out, '\n');
        }
        proof {
            assert(s.take(cs.len() as int) =~= s);
            let l = split_lines(s);
            lemma_concat_held(st);
            lemma_concat_append(kept(l, Scan::Outside), held(st));
            assert(out@ =~= scanned(s));
        }
        if st == Scan::AfterEnd {
            let n = out.as_str().unicode_len();
            if n > 0 && out.as_str().get_char(n - 1) == '\n' {
                pop_char(&mut out);
            }
        }
        out
    }
}

/// Whether `h` begins with `www.`.
fn starts_with_www(h: &str) -> (r: bool)
    ensures
        r == has_www(h@),
{
    proof {
        reveal_strlit("www.");
    }
    let n = h.unicode_len();
    if n < 4 {
        return false;
    }
    let r = h.get_char(0) == 'w' && h.get_char(1) == 'w' && h.get_char(2) == 'w' && h.get_char(3)
        == '.';
    proof {
        if r {
            assert(h@.take(4) =~= "www."@);
        } else if h@.take(4) == "www."@ {
            assert(h@.take(4)[0] == h@[0]);
            assert(h@.take(4)[1] == h@[1]);
            assert(h@.take(4)[2] == h@[2]);
            assert(h@.take(4)[3] == h@[3]);
        }
    }
    r
}

/// The other form of `h`: without `www.` if it has it, else with it.
fn other_form_of(h: &str) -> (r: String)
    ensures
        r@ == other_form(h@),
{
    let mut other = String::new();
    if starts_with_www(h) {
        other.append(h.substring_char(4, h.unicode_len()));
    } else {
        other.append("www.");
        other.append(h);
    }
    assert(other@ =~= other_form(h@));
    other
}

/// Appends the line `prefix`, `h` and a newline to `out`.
fn push_line(out: &mut String, prefix: &str, h: &str)
    ensures
        final(out)@ == old(out)@ + (prefix@ + h@ + "\n"@),
{
    out.append(prefix);
    out.append(h);
    out.append("\n");
    assert(final(out)@ =~= old(out)@ + (prefix@ + h@ + "\n"@));
}

/// Appends the four denial lines of `h` to `out`.
fn push_host_lines(out: &mut String, h: &str)
    ensures
        final(out)@ == old(out)@ + concat(host_lines(h@)),
{
    let other = other_form_of(h);
    let ghost base = out@;
    push_line(out, "0.0.0.0 ", h);
    push_line(out, "::1 ", h);
    push_line(out, "0.0.0.0 ", other.as_str());
    push_line(out, "::1 ", other.as_str());
    proof {
        lemma_concat_four(deny_v4(h@), deny_v6(h@), deny_v4(other@), deny_v6(other@));
        assert(out@ =~= base + concat(host_lines(h@)));
    }
}

impl BlockManager {
    /// The lines that block `hosts`, between the two markers and with a blank
    /// line before and after: for each host, IPv4 (`0.0.0.0`) and IPv6
    /// (`::1`) denials of the host itself and of its other form (with or
    /// without `www.`).
    pub fn build_block_region(hosts: &Vec<String>) -> (r: String)
        ensures
            r@ == region(views(hosts@)),
    {
        let mut out = build_closing_region(hosts);
        out.append("\n");
        proof {
            lemma_region_parts(views(hosts@));
        }
        out
    }

    /// The hosts file `content` with a block of `hosts` applied: every earlier
    /// region is removed and the new region is appended. Where the last line
    /// left has no newline, one is added and the region, without its closing
    /// blank line, ends the file.
    pub fn block_websites(content: &str, hosts: &Vec<String>) -> (r: String)
        ensures
            r@ == applied(content@, views(hosts@)),
    {
        let mut out = Self::remove_existing_blocks(content);
        let n = out.as_str().unicode_len();
        if n > 0 && out.as_str().get_char(n - 1) != '\n' {
            push_char(&mut out, '\n');
            let region = build_closing_region(hosts);
            out.append(region.as_str());
        } else {
            let region = Self::build_block_region(hosts);
            out.append(region.as_str());
        }
        out
    }
}

/// The region's lines up to and including the end marker.
fn build_closing_region(hosts: &Vec<String>) -> (r: String)
    ensures
        r@ == closing_region(views(hosts@)),
{
    let ghost hv = views(hosts@);
    let mut out = String::new();
    out.append("\n");
    out.append(MARKER_START);
    out.append("\n");
    let ghost head = out@;
    for i in 0..hosts.len()
        invariant
            hv == views(hosts@),
            out@ == head + concat(entry_lines(hv.take(i as int))),
    {
        push_host_lines(&mut out, hosts[i].as_str());
        proof {
            let t = hv.take(i as int);
            let t1 = hv.take(i + 1);
            assert(t1.drop_last() =~= t);
            assert(t1.last() == hosts@[i as int]@);
            lemma_concat_append(entry_lines(t), host_lines(t1.last()));
        }
    }
    out.append(MARKER_END);
    out.append("\n");
    proof {
        let e = entry_lines(hv);
        let a = seq!["\n"@, MARKER_START@ + "\n"@];
        let b = seq![MARKER_END@ + "\n"@];
        assert(hv.take(hosts.len() as int) =~= hv);
        lemma_concat_append(a, e);
        lemma_concat_append(a + e, b);
        lemma_concat_two("\n"@, MARKER_START@ + "\n"@);
        lemma_concat_push(Seq::<Seq<char>>::empty(), MARKER_END@ + "\n"@);
        assert(Seq::<Seq<char>>::empty().push(MARKER_END@ + "\n"@) =~= b);
        assert(concat(Seq::<Seq<char>>::empty()) + (MARKER_END@ + "\n"@) =~= MARKER_END@ + "\n"@);
        assert(concat(a) =~= head);
        assert(out@ =~= closing_region(hv));
    }
    out
}

/// A full region is the closing region followed by a blank line.
pub proof fn lemma_region_parts(hosts: Seq<Seq<char>>)
    ensures
        region_lines(hosts) == closing_region_lines(hosts).push("\n"@),
        region(hosts) == closing_region(hosts) + "\n"@,
{
    assert(region_lines(hosts) =~= closing_region_lines(hosts).push("\n"@));
    lemma_concat_push(closing_region_lines(hosts), "\n"@);
}

/// A host name that can stand on a hosts-file line: no line break and no
/// comment sign.
pub open spec fn valid_host(h: Seq<char>) -> bool {
    forall|j: int| 0 <= j < h.len() ==> h[j] != '\n' && h[j] != '#'
}

pub open spec fn no_hash(l: Seq<char>) -> bool {
    forall|j: int| 0 <= j < l.len() ==> l[j] != '#'
}

/// The lines left after removal are well formed and hold no marker.
pub proof fn lemma_output_lines(lines: Seq<Seq<char>>)
    requires
        lines_ok(lines),
    ensures
        lines_ok(output_lines(lines)),
        forall|i: int| 0 <= i < output_lines(lines).len() ==> !is_marker_line(#[trigger] output_lines(lines)[i]),
{
    lemma_blank_facts();
    lemma_kept_lines(lines, Scan::Outside);
    let o = output_lines(lines);
    let k = kept(lines, Scan::Outside);
    let h = held(scan_after(lines, Scan::Outside));
    assert forall|i: int| 0 <= i < o.len() implies line_ok(#[trigger] o[i]) && !is_marker_line(o[i]) by {
        if i < k.len() {
            assert(o[i] == k[i]);
        } else {
            assert(o[i] == h[i - k.len()]);
        }
    }
    if lines.len() > 0 {
        let p = lines.drop_last();
        let l = lines.last();
        assert(forall|i: int| 0 <= i < p.len() ==> p[i] == lines[i]);
        lemma_kept_lines(p, Scan::Outside);
        let kp = kept(p, Scan::Outside);
        let sp = scan_after(p, Scan::Outside);
        let e = emitted(sp, l);
        lemma_emitted(sp, l);
        assert(k == kp + e);
        assert forall|i: int| 0 <= i < o.len() - 1 implies (#[trigger] o[i]).last() == '\n' by {
            if i < kp.len() {
                assert(o[i] == kp[i]);
            } else if i < kp.len() + e.len() {
                assert(o[i] == e[i - kp.len()]);
            } else {
                assert(o[i] == h[i - kp.len() - e.len()]);
            }
        }
    }
}

/// Text without any marker line is left exactly as it is by removal.
pub proof fn remove_keeps_clean_text(s: Seq<char>)
    requires
        forall|i: int| 0 <= i < split_lines(s).len() ==> !is_marker_line(#[trigger] split_lines(s)[i]),
    ensures
        removed(s) == s,
{
    lemma_split_lines(s);
    lemma_kept_clean(split_lines(s));
}

/// A line that holds a marker still does once a character is added.
proof fn lemma_marker_extend(l: Seq<char>)
    requires
        l.len() > 0,
        is_marker_line(l.drop_last()),
    ensures
        is_marker_line(l),
{
    let p = l.drop_last();
    if is_start_line(p) {
        let m = MARKER_START@;
        let i = choose|i: int| 0 <= i && i + m.len() <= p.len() && #[trigger] p.subrange(i, i + m.len()) == m;
        assert(l.subrange(i, i + m.len()) =~= p.subrange(i, i + m.len()));
    } else {
        let m = MARKER_END@;
        let i = choose|i: int| 0 <= i && i + m.len() <= p.len() && #[trigger] p.subrange(i, i + m.len()) == m;
        assert(l.subrange(i, i + m.len()) =~= p.subrange(i, i + m.len()));
    }
}

/// Dropping the last character of text without marker lines leaves text
/// without marker lines.
proof fn lemma_clean_drop_last(o: Seq<char>)
    requires
        o.len() > 0,
        forall|i: int| 0 <= i < split_lines(o).len() ==> !is_marker_line(#[trigger] split_lines(o)[i]),
    ensures
        forall|i: int|
            0 <= i < split_lines(o.drop_last()).len() ==> !is_marker_line(
                #[trigger] split_lines(o.drop_last())[i],
            ),
{
    let prev = split_lines(o.drop_last());
    let r = split_lines(o);
    if prev.len() > 0 && prev.last().last() != '\n' {
        let n = prev.len() - 1;
        assert forall|i: int| 0 <= i < prev.len() implies !is_marker_line(#[trigger] prev[i]) by {
            if i < n {
                assert(prev[i] == r[i]);
            } else {
                assert(r[n] == prev[n].push(o.last()));
                assert(r[n].drop_last() =~= prev[n]);
                assert(!is_marker_line(r[n]));
                if is_marker_line(prev[i]) {
                    lemma_marker_extend(r[n]);
                }
            }
        }
    } else {
        assert forall|i: int| 0 <= i < prev.len() implies !is_marker_line(#[trigger] prev[i]) by {
            assert(prev[i] == r[i]);
        }
    }
}

/// Removing the regions twice gives what removing them once gives, and the
/// result holds no marker line.
pub proof fn remove_is_idempotent(s: Seq<char>)
    ensures
        removed(removed(s)) == removed(s),
        forall|i: int|
            0 <= i < split_lines(removed(s)).len() ==> !is_marker_line(
                #[trigger] split_lines(removed(s))[i],
            ),
{
    lemma_split_lines(s);
    let o = output_lines(split_lines(s));
    lemma_output_lines(split_lines(s));
    lemma_split_concat(o);
    let x = concat(o);
    if removed(s) != x {
        lemma_clean_drop_last(x);
    }
    remove_keeps_clean_text(removed(s));
}

proof fn lemma_contains_first(l: Seq<char>, m: Seq<char>)
    requires
        contains(l, m),
        m.len() > 0,
    ensures
        exists|j: int| 0 <= j < l.len() && l[j] == m[0],
{
    let i = choose|i: int| 0 <= i && i + m.len() <= l.len() && #[trigger] l.subrange(i, i + m.len()) == m;
    assert(l.subrange(i, i + m.len())[0] == l[i]);
}

/// A line without `#` is no marker line.
proof fn lemma_no_hash_no_marker(l: Seq<char>)
    requires
        no_hash(l),
    ensures
        !is_marker_line(l),
{
    reveal_strlit("# ENOUGH BLOCK START");
    reveal_strlit("# ENOUGH BLOCK END");
    if is_start_line(l) {
        lemma_contains_first(l, MARKER_START@);
    }
    if is_end_line(l) {
        lemma_contains_first(l, MARKER_END@);
    }
}

/// Terminating a line does not make it a marker line.
proof fn lemma_marker_push_newline(l: Seq<char>)
    requires
        !is_marker_line(l),
    ensures
        !is_marker_line(l.push('\n')),
{
    reveal_strlit("# ENOUGH BLOCK START");
    reveal_strlit("# ENOUGH BLOCK END");
    let t = l.push('\n');
    if is_start_line(t) {
        let m = MARKER_START@;
        let i = choose|i: int| 0 <= i && i + m.len() <= t.len() && #[trigger] t.subrange(i, i + m.len()) == m;
        if i + m.len() <= l.len() {
            assert(l.subrange(i, i + m.len()) =~= t.subrange(i, i + m.len()));
        } else {
            assert(t.subrange(i, i + m.len())[m.len() - 1] == '\n');
        }
    }
    if is_end_line(t) {
        let m = MARKER_END@;
        let i = choose|i: int| 0 <= i && i + m.len() <= t.len() && #[trigger] t.subrange(i, i + m.len()) == m;
        if i + m.len() <= l.len() {
            assert(l.subrange(i, i + m.len()) =~= t.subrange(i, i + m.len()));
        } else {
            assert(t.subrange(i, i + m.len())[m.len() - 1] == '\n');
        }
    }
}

/// A denial line of a valid host is well formed, terminated, and free of `#`.
proof fn lemma_deny_line(prefix: Seq<char>, h: Seq<char>)
    requires
        valid_host(h),
        no_hash(prefix),
        forall|j: int| 0 <= j < prefix.len() ==> prefix[j] != '\n',
    ensures
        line_ok(prefix + h + "\n"@),
        (prefix + h + "\n"@).last() == '\n',
        no_hash(prefix + h + "\n"@),
{
    reveal_strlit("\n");
    let l = prefix + h + "\n"@;
    assert forall|j: int| 0 <= j < l.len() implies l[j] != '#' && (j < l.len() - 1 ==> l[j] != '\n') by {
        if j < prefix.len() {
            assert(l[j] == prefix[j]);
        } else if j < prefix.len() + h.len() {
            assert(l[j] == h[j - prefix.len()]);
        }
    }
}

/// The denial lines of valid hosts are well formed, terminated, and hold no
/// marker.
proof fn lemma_entry_lines(hosts: Seq<Seq<char>>)
    requires
        forall|i: int| 0 <= i < hosts.len() ==> valid_host(#[trigger] hosts[i]),
    ensures
        forall|i: int| 0 <= i < entry_lines(hosts).len() ==> line_ok(#[trigger] entry_lines(hosts)[i]),
        forall|i: int| 0 <= i < entry_lines(hosts).len() ==> (#[trigger] entry_lines(hosts)[i]).last() == '\n',
        forall|i: int| 0 <= i < entry_lines(hosts).len() ==> !is_marker_line(#[trigger] entry_lines(hosts)[i]),
    decreases hosts.len(),
{
    if hosts.len() > 0 {
        let p = hosts.drop_last();
        assert(forall|i: int| 0 <= i < p.len() ==> p[i] == hosts[i]);
        lemma_entry_lines(p);
        let h = hosts.last();
        assert(valid_host(hosts[hosts.len() - 1]));
        reveal_strlit("0.0.0.0 ");
        reveal_strlit("::1 ");
        reveal_strlit("www.");
        let o = other_form(h);
        assert(valid_host(o)) by {
            if has_www(h) {
                assert forall|j: int| 0 <= j < o.len() implies o[j] != '\n' && o[j] != '#' by {
                    assert(o[j] == h[j + 4]);
                }
            } else {
                assert forall|j: int| 0 <= j < o.len() implies o[j] != '\n' && o[j] != '#' by {
                    if j >= 4 {
                        assert(o[j] == h[j - 4]);
                    }
                }
            }
        }
        lemma_deny_line("0.0.0.0 "@, h);
        lemma_deny_line("::1 "@, h);
        lemma_deny_line("0.0.0.0 "@, o);
        lemma_deny_line("::1 "@, o);
        let hl = host_lines(h);
        assert forall|i: int| 0 <= i < hl.len() implies line_ok(#[trigger] hl[i]) && hl[i].last() == '\n'
            && !is_marker_line(hl[i]) by {
            lemma_no_hash_no_marker(hl[i]);
        }
        let e = entry_lines(hosts);
        let ep = entry_lines(p);
        assert(e == ep + hl);
        assert forall|i: int| 0 <= i < e.len() implies line_ok(#[trigger] e[i]) && e[i].last() == '\n'
            && !is_marker_line(e[i]) by {
            if i < ep.len() {
                assert(e[i] == ep[i]);
            } else {
                assert(e[i] == hl[i - ep.len()]);
            }
        }
    }
}

/// Inside a region, lines without markers are all dropped and the scan stays
/// inside.
proof fn lemma_kept_inside(lines: Seq<Seq<char>>)
    requires
        forall|i: int| 0 <= i < lines.len() ==> !is_marker_line(#[trigger] lines[i]),
    ensures
        kept(lines, Scan::Inside) == Seq::<Seq<char>>::empty(),
        scan_after(lines, Scan::Inside) == Scan::Inside,
    decreases lines.len(),
{
    if lines.len() > 0 {
        let p = lines.drop_last();
        assert(forall|i: int| 0 <= i < p.len() ==> p[i] == lines[i]);
        lemma_kept_inside(p);
        assert(!is_marker_line(lines[lines.len() - 1]));
        assert(kept(lines, Scan::Inside) =~= Seq::<Seq<char>>::empty());
    } else {
        assert(kept(lines, Scan::Inside) =~= Seq::<Seq<char>>::empty());
    }
}

/// `lines` with the last one terminated.
pub open spec fn terminate_last(lines: Seq<Seq<char>>) -> Seq<Seq<char>> {
    if lines.len() > 0 && lines.last().last() != '\n' {
        lines.update(lines.len() - 1, lines.last().push('\n'))
    } else {
        lines
    }
}

proof fn lemma_terminate_last(k: Seq<Seq<char>>)
    requires
        lines_ok(k),
        forall|i: int| 0 <= i < k.len() ==> !is_marker_line(#[trigger] k[i]),
    ensures
        concat(terminate_last(k)) == terminated(concat(k)),
        forall|i: int| 0 <= i < terminate_last(k).len() ==> line_ok(#[trigger] terminate_last(k)[i]),
        forall|i: int| 0 <= i < terminate_last(k).len() ==> (#[trigger] terminate_last(k)[i]).last() == '\n',
        forall|i: int| 0 <= i < terminate_last(k).len() ==> !is_marker_line(#[trigger] terminate_last(k)[i]),
{
    let t = terminate_last(k);
    if k.len() > 0 {
        let n = k.len() - 1;
        assert(line_ok(k[n]));
        assert(concat(k) == concat(k.drop_last()) + k.last());
        if k.last().last() != '\n' {
            assert(t.drop_last() =~= k.drop_last());
            assert(concat(t) == concat(t.drop_last()) + t.last());
            assert(concat(t) =~= concat(k).push('\n'));
            lemma_marker_push_newline(k[n]);
            assert forall|i: int| 0 <= i < t.len() implies line_ok(#[trigger] t[i]) by {
                if i == n {
                    assert forall|j: int| 0 <= j < t[i].len() - 1 implies t[i][j] != '\n' by {
                        if j < k[n].len() - 1 {
                            assert(t[i][j] == k[n][j]);
                        } else {
                            assert(t[i][j] == k[n].last());
                        }
                    }
                }
            }
        }
    }
}

proof fn lemma_marker_facts()
    ensures
        !is_marker_line("\n"@),
        is_start_line(MARKER_START@ + "\n"@),
        is_end_line(MARKER_END@ + "\n"@),
        !is_start_line(MARKER_END@ + "\n"@),
        line_ok("\n"@),
        line_ok(MARKER_START@ + "\n"@),
        line_ok(MARKER_END@ + "\n"@),
        ("\n"@).last() == '\n',
        (MARKER_START@ + "\n"@).last() == '\n',
        (MARKER_END@ + "\n"@).last() == '\n',
{
    reveal_strlit("# ENOUGH BLOCK START");
    reveal_strlit("# ENOUGH BLOCK END");
    reveal_strlit("\n");
    let a = MARKER_START@ + "\n"@;
    let b = MARKER_END@ + "\n"@;
    assert(a.subrange(0, 0 + MARKER_START@.len() as int) =~= MARKER_START@);
    assert(b.subrange(0, 0 + MARKER_END@.len() as int) =~= MARKER_END@);
    assert forall|j: int| 0 <= j < a.len() - 1 implies a[j] != '\n' by {
        assert(a[j] == MARKER_START@[j]);
    }
    assert forall|j: int| 0 <= j < b.len() - 1 implies b[j] != '\n' by {
        assert(b[j] == MARKER_END@[j]);
    }
}

/// Removal takes out a region appended to clean, terminated lines, together
/// with its blank separators, and gives back exactly those lines.
proof fn lemma_remove_region(t: Seq<Seq<char>>, hosts: Seq<Seq<char>>)
    requires
        forall|i: int| 0 <= i < t.len() ==> line_ok(#[trigger] t[i]),
        forall|i: int| 0 <= i < t.len() ==> (#[trigger] t[i]).last() == '\n',
        forall|i: int| 0 <= i < t.len() ==> !is_marker_line(#[trigger] t[i]),
        forall|i: int| 0 <= i < hosts.len() ==> valid_host(#[trigger] hosts[i]),
    ensures
        removed(concat(t) + region(hosts)) == concat(t),
        split_lines(concat(t) + region(hosts)) == t + region_lines(hosts),
{
    lemma_entry_lines(hosts);
    lemma_marker_facts();
    lemma_blank_facts();
    let e = entry_lines(hosts);
    let sl = MARKER_START@ + "\n"@;
    let el = MARKER_END@ + "\n"@;
    let a = seq![blank(), sl];
    let b = seq![el, blank()];
    let r = region_lines(hosts);
    assert(r =~= a + e + b);
    let all = t + r;
    assert(lines_ok(all)) by {
        assert forall|i: int| 0 <= i < all.len() implies line_ok(#[trigger] all[i]) && all[i].last() == '\n' by {
            if i < t.len() {
                assert(all[i] == t[i]);
            } else if i < t.len() + 2 {
                assert(all[i] == a[i - t.len()]);
            } else if i < t.len() + 2 + e.len() {
                assert(all[i] == e[i - t.len() - 2]);
            } else {
                assert(all[i] == b[i - t.len() - 2 - e.len()]);
            }
        }
    }
    lemma_concat_append(t, r);
    lemma_split_concat(all);
    lemma_kept_append(t, r, Scan::Outside);
    lemma_kept_clean(t);
    let st = scan_after(t, Scan::Outside);
    lemma_kept_append(a, e, st);
    lemma_kept_append(a + e, b, st);
    let e0 = Seq::<Seq<char>>::empty();
    // the blank line and the start marker
    assert(a.drop_last() =~= seq![blank()]);
    assert(seq![blank()].drop_last() =~= e0);
    assert(seq![blank()].last() == blank());
    assert(kept(e0, st) =~= e0);
    assert(kept(seq![blank()], st) == kept(e0, st) + emitted(st, blank()));
    assert(scan_after(seq![blank()], st) == Scan::HeldBlank);
    assert(a.last() == sl);
    assert(kept(a, st) == kept(seq![blank()], st) + emitted(Scan::HeldBlank, sl));
    assert(kept(a, st) =~= held(st));
    assert(scan_after(a, st) == Scan::Inside);
    // the denials
    lemma_kept_inside(e);
    // the end marker and the blank line
    assert(b.drop_last() =~= seq![el]);
    assert(seq![el].drop_last() =~= e0);
    assert(seq![el].last() == el);
    assert(kept(e0, Scan::Inside) =~= e0);
    assert(kept(seq![el], Scan::Inside) =~= e0);
    assert(scan_after(seq![el], Scan::Inside) == Scan::AfterEnd);
    assert(b.last() == blank());
    assert(kept(b, Scan::Inside) =~= e0);
    assert(scan_after(b, Scan::Inside) == Scan::Outside);
    assert(held(st) + e0 + e0 =~= held(st));
    assert(kept(r, st) == held(st));
    assert(output_lines(all) =~= kept(t, Scan::Outside) + held(st));
}

/// Removal takes out a closing region appended to clean, terminated lines,
/// and with it the newline of the last of those lines.
proof fn lemma_remove_closing_region(t: Seq<Seq<char>>, hosts: Seq<Seq<char>>)
    requires
        t.len() > 0,
        forall|i: int| 0 <= i < t.len() ==> line_ok(#[trigger] t[i]),
        forall|i: int| 0 <= i < t.len() ==> (#[trigger] t[i]).last() == '\n',
        forall|i: int| 0 <= i < t.len() ==> !is_marker_line(#[trigger] t[i]),
        forall|i: int| 0 <= i < hosts.len() ==> valid_host(#[trigger] hosts[i]),
    ensures
        removed(concat(t) + closing_region(hosts)) == concat(t).drop_last(),
        split_lines(concat(t) + closing_region(hosts)) == t + closing_region_lines(hosts),
{
    lemma_entry_lines(hosts);
    lemma_marker_facts();
    lemma_blank_facts();
    let e = entry_lines(hosts);
    let sl = MARKER_START@ + "\n"@;
    let el = MARKER_END@ + "\n"@;
    let a = seq![blank(), sl];
    let b = seq![el];
    let r = closing_region_lines(hosts);
    assert(r =~= a + e + b);
    let all = t + r;
    assert(lines_ok(all)) by {
        assert forall|i: int| 0 <= i < all.len() implies line_ok(#[trigger] all[i]) && all[i].last() == '\n' by {
            if i < t.len() {
                assert(all[i] == t[i]);
            } else if i < t.len() + 2 {
                assert(all[i] == a[i - t.len()]);
            } else if i < t.len() + 2 + e.len() {
                assert(all[i] == e[i - t.len() - 2]);
            } else {
                assert(all[i] == b[i - t.len() - 2 - e.len()]);
            }
        }
    }
    lemma_concat_append(t, r);
    lemma_split_concat(all);
    lemma_kept_append(t, r, Scan::Outside);
    lemma_kept_clean(t);
    let st = scan_after(t, Scan::Outside);
    lemma_kept_append(a, e, st);
    lemma_kept_append(a + e, b, st);
    let e0 = Seq::<Seq<char>>::empty();
    assert(a.drop_last() =~= seq![blank()]);
    assert(seq![blank()].drop_last() =~= e0);
    assert(seq![blank()].last() == blank());
    assert(kept(e0, st) =~= e0);
    assert(kept(seq![blank()], st) == kept(e0, st) + emitted(st, blank()));
    assert(scan_after(seq![blank()], st) == Scan::HeldBlank);
    assert(a.last() == sl);
    assert(kept(a, st) == kept(seq![blank()], st) + emitted(Scan::HeldBlank, sl));
    assert(kept(a, st) =~= held(st));
    assert(scan_after(a, st) == Scan::Inside);
    lemma_kept_inside(e);
    assert(b.drop_last() =~= e0);
    assert(b.last() == el);
    assert(kept(e0, Scan::Inside) =~= e0);
    assert(kept(b, Scan::Inside) =~= e0);
    assert(scan_after(b, Scan::Inside) == Scan::AfterEnd);
    assert(held(st) + e0 + e0 =~= held(st));
    assert(kept(r, st) == held(st));
    assert(scan_after(all, Scan::Outside) == Scan::AfterEnd);
    assert(output_lines(all) =~= kept(t, Scan::Outside) + held(st));
    let n = t.len() - 1;
    assert(concat(t) == concat(t.drop_last()) + t.last());
    assert(line_ok(t[n]));
    assert(t.last() == t[n]);
}

/// The lines of text that is empty or ends with a newline are all
/// terminated.
proof fn lemma_terminated_lines(r: Seq<char>)
    requires
        r.len() == 0 || r.last() == '\n',
    ensures
        forall|i: int| 0 <= i < split_lines(r).len() ==> line_ok(#[trigger] split_lines(r)[i]),
        forall|i: int| 0 <= i < split_lines(r).len() ==> (#[trigger] split_lines(r)[i]).last() == '\n',
        concat(split_lines(r)) == r,
{
    lemma_split_lines(r);
    let l = split_lines(r);
    assert forall|i: int| 0 <= i < l.len() implies (#[trigger] l[i]).last() == '\n' by {
        if i == l.len() - 1 {
            assert(l[i] == l.last());
        }
    }
}

/// Reverting an applied block gives back the file exactly as removal alone
/// leaves it: the region, its separators and any newline written for it
/// leave no trace.
pub proof fn apply_then_revert(s: Seq<char>, hosts: Seq<Seq<char>>)
    requires
        forall|i: int| 0 <= i < hosts.len() ==> valid_host(#[trigger] hosts[i]),
    ensures
        removed(applied(s, hosts)) == removed(s),
{
    remove_is_idempotent(s);
    let r = removed(s);
    lemma_split_lines(r);
    let l = split_lines(r);
    if r.len() > 0 && r.last() != '\n' {
        lemma_terminate_last(l);
        let t = terminate_last(l);
        lemma_remove_closing_region(t, hosts);
        assert(r.push('\n').drop_last() =~= r);
    } else {
        lemma_terminated_lines(r);
        lemma_remove_region(l, hosts);
    }
}

/// Applying a block to a file without marker lines, then reverting it, gives
/// the file back byte for byte.
pub proof fn revert_restores(s: Seq<char>, hosts: Seq<Seq<char>>)
    requires
        forall|i: int| 0 <= i < hosts.len() ==> valid_host(#[trigger] hosts[i]),
        forall|i: int| 0 <= i < split_lines(s).len() ==> !is_marker_line(#[trigger] split_lines(s)[i]),
    ensures
        removed(applied(s, hosts)) == s,
{
    apply_then_revert(s, hosts);
    remove_keeps_clean_text(s);
}

/// Applying the same block twice gives what applying it once gives.
pub proof fn apply_is_idempotent(s: Seq<char>, hosts: Seq<Seq<char>>)
    requires
        forall|i: int| 0 <= i < hosts.len() ==> valid_host(#[trigger] hosts[i]),
    ensures
        applied(applied(s, hosts), hosts) == applied(s, hosts),
{
    apply_then_revert(s, hosts);
}

proof fn lemma_entry_index(hosts: Seq<Seq<char>>)
    ensures
        entry_lines(hosts).len() == 4 * hosts.len(),
        forall|i: int, k: int|
            0 <= i < hosts.len() && 0 <= k < 4 ==> entry_lines(hosts)[4 * i + k] == #[trigger] host_lines(
                hosts[i],
            )[k],
    decreases hosts.len(),
{
    if hosts.len() > 0 {
        let p = hosts.drop_last();
        lemma_entry_index(p);
        assert forall|i: int, k: int| 0 <= i < hosts.len() && 0 <= k < 4 implies entry_lines(hosts)[4 * i + k]
            == #[trigger] host_lines(hosts[i])[k] by {
            if i < p.len() {
                assert(hosts[i] == p[i]);
                assert(host_lines(p[i])[k] == entry_lines(p)[4 * i + k]);
            }
        }
    }
}

/// Every host of a block is denied under both of its names, with and
/// without `www.`, for IPv4 and IPv6 alike: the lines of the region include
/// the four denials.
pub proof fn region_blocks_both_forms(hosts: Seq<Seq<char>>, i: int)
    requires
        0 <= i < hosts.len(),
        forall|j: int| 0 <= j < hosts.len() ==> valid_host(#[trigger] hosts[j]),
    ensures
        ({
            let h = hosts[i];
            let w = if has_www(h) { h.skip(4) } else { "www."@ + h };
            let lines = split_lines(region(hosts));
            &&& lines.contains(deny_v4(h))
            &&& lines.contains(deny_v6(h))
            &&& lines.contains(deny_v4(w))
            &&& lines.contains(deny_v6(w))
        }),
{
    lemma_entry_lines(hosts);
    lemma_marker_facts();
    lemma_entry_index(hosts);
    let e = entry_lines(hosts);
    let a = seq!["\n"@, MARKER_START@ + "\n"@];
    let b = seq![MARKER_END@ + "\n"@, "\n"@];
    let r = region_lines(hosts);
    assert(lines_ok(r)) by {
        assert forall|j: int| 0 <= j < r.len() implies line_ok(#[trigger] r[j]) && r[j].last() == '\n' by {
            if j < 2 {
                assert(r[j] == a[j]);
            } else if j < 2 + e.len() {
                assert(r[j] == e[j - 2]);
            } else {
                assert(r[j] == b[j - 2 - e.len()]);
            }
        }
    }
    lemma_split_concat(r);
    let hl = host_lines(hosts[i]);
    assert forall|k: int| 0 <= k < 4 implies r[2 + 4 * i + k] == #[trigger] hl[k] by {
        assert(e[4 * i + k] == hl[k]);
    }
    assert(r[2 + 4 * i + 0] == hl[0]);
    assert(r[2 + 4 * i + 1] == hl[1]);
    assert(r[2 + 4 * i + 2] == hl[2]);
    assert(r[2 + 4 * i + 3] == hl[3]);
}

/// After a block is applied to any hosts file, every one of its hosts is
/// denied under both of its names, with and without `www.`, for IPv4 and IPv6
/// alike: the file's lines include the four denials.
pub proof fn applied_blocks_both_forms(s: Seq<char>, hosts: Seq<Seq<char>>, i: int)
    requires
        0 <= i < hosts.len(),
        forall|j: int| 0 <= j < hosts.len() ==> valid_host(#[trigger] hosts[j]),
    ensures
        ({
            let h = hosts[i];
            let w = if has_www(h) { h.skip(4) } else { "www."@ + h };
            let lines = split_lines(applied(s, hosts));
            &&& lines.contains(deny_v4(h))
            &&& lines.contains(deny_v6(h))
            &&& lines.contains(deny_v4(w))
            &&& lines.contains(deny_v6(w))
        }),
{
    remove_is_idempotent(s);
    let r = removed(s);
    lemma_split_lines(r);
    let l = split_lines(r);
    lemma_entry_index(hosts);
    let e = entry_lines(hosts);
    let hl = host_lines(hosts[i]);
    let unterminated = r.len() > 0 && r.last() != '\n';
    let t = if unterminated {
        terminate_last(l)
    } else {
        l
    };
    let rl = if unterminated {
        closing_region_lines(hosts)
    } else {
        region_lines(hosts)
    };
    if unterminated {
        lemma_terminate_last(l);
        lemma_remove_closing_region(t, hosts);
    } else {
        lemma_terminated_lines(r);
        lemma_remove_region(l, hosts);
    }
    assert(split_lines(applied(s, hosts)) == t + rl);
    let all = t + rl;
    assert forall|k: int| 0 <= k < 4 implies all[t.len() + 2 + 4 * i + k] == #[trigger] hl[k] by {
        assert(e[4 * i + k] == hl[k]);
        assert(rl[2 + 4 * i + k] == e[4 * i + k]);
    }
    assert(all[t.len() + 2 + 4 * i + 0] == hl[0]);
    assert(all[t.len() + 2 + 4 * i + 1] == hl[1]);
    assert(all[t.len() + 2 + 4 * i + 2] == hl[2]);
    assert(all[t.len() + 2 + 4 * i + 3] == hl[3]);
}

} // verus!
