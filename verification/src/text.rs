//! Verified character-level helpers: splitting, joining, replacing,
//! trimming and decimal numbers.

use vstd::prelude::*;

verus! {

/// `String::push`, trusted to append `ch` after the characters already in
/// `s` and to change nothing else, as its documentation states.
pub assume_specification[ String::push ](s: &mut String, ch: char)
    ensures
        final(s)@ == old(s)@.push(ch),
;

// ---------------------------------------------------------------------------
// Splitting and joining
// ---------------------------------------------------------------------------

/// The pieces of `s` between occurrences of `sep`, as `str::split` yields
/// them: there is always at least one piece, and empty pieces are kept.
pub open spec fn split_spec(s: Seq<char>, sep: char) -> Seq<Seq<char>>
    decreases s.len(),
{
    if s.len() == 0 {
        seq![Seq::<char>::empty()]
    } else {
        let r = split_spec(s.drop_last(), sep);
        if s.last() == sep {
            r.push(Seq::<char>::empty())
        } else {
            r.update(r.len() - 1, r.last().push(s.last()))
        }
    }
}

/// The pieces of `parts` glued together with `sep` between neighbours, as
/// `[String]::join` does.
pub open spec fn join_spec(parts: Seq<Seq<char>>, sep: char) -> Seq<char>
    decreases parts.len(),
{
    if parts.len() == 0 {
        Seq::<char>::empty()
    } else if parts.len() == 1 {
        parts[0]
    } else {
        join_spec(parts.drop_last(), sep).push(sep) + parts.last()
    }
}

/// No piece of `parts` holds `sep`.
pub open spec fn pieces_free_of(parts: Seq<Seq<char>>, sep: char) -> bool {
    forall|i: int| 0 <= i < parts.len() ==> !(#[trigger] parts[i]).contains(sep)
}

/// `split_spec` always yields at least one piece, and none of them holds the
/// separator.
pub proof fn lemma_split_shape(s: Seq<char>, sep: char)
    ensures
        split_spec(s, sep).len() >= 1,
        pieces_free_of(split_spec(s, sep), sep),
    decreases s.len(),
{
    if s.len() > 0 {
        lemma_split_shape(s.drop_last(), sep);
        let r = split_spec(s.drop_last(), sep);
        if s.last() != sep {
            let q = r.last().push(s.last());
            assert forall|i: int| 0 <= i < q.len() implies q[i] != sep by {
                if i < r.last().len() {
                    assert(q[i] == r.last()[i]);
                    assert(!r[r.len() - 1].contains(sep));
                }
            }
            let u = r.update(r.len() - 1, q);
            assert forall|i: int| 0 <= i < u.len() implies !(#[trigger] u[i]).contains(sep) by {
                if i != r.len() - 1 {
                    assert(u[i] == r[i]);
                }
            }
        } else {
            let u = r.push(Seq::<char>::empty());
            assert forall|i: int| 0 <= i < u.len() implies !(#[trigger] u[i]).contains(sep) by {
                if i < r.len() {
                    assert(u[i] == r[i]);
                }
            }
        }
    }
}

/// Joining the pieces of a split gives back the string that was split.
pub proof fn lemma_join_split(s: Seq<char>, sep: char)
    ensures
        join_spec(split_spec(s, sep), sep) == s,
    decreases s.len(),
{
    if s.len() > 0 {
        let t = s.drop_last();
        lemma_join_split(t, sep);
        lemma_split_shape(t, sep);
        let r = split_spec(t, sep);
        if s.last() == sep {
            let u = r.push(Seq::<char>::empty());
            assert(u.drop_last() =~= r);
            assert(join_spec(u, sep) =~= t.push(sep));
            assert(s =~= t.push(sep));
        } else {
            let u = r.update(r.len() - 1, r.last().push(s.last()));
            if r.len() == 1 {
                assert(s =~= t.push(s.last()));
            } else {
                assert(u.drop_last() =~= r.drop_last());
                assert(join_spec(r, sep) == join_spec(r.drop_last(), sep).push(sep) + r.last());
                assert(join_spec(u, sep) =~= join_spec(r, sep).push(s.last()));
                assert(s =~= t.push(s.last()));
            }
        }
    }
}

/// Splitting a string that does not hold the separator yields that string
/// alone.
pub proof fn lemma_split_single(y: Seq<char>, sep: char)
    requires
        !y.contains(sep),
    ensures
        split_spec(y, sep) == seq![y],
    decreases y.len(),
{
    if y.len() > 0 {
        let t = y.drop_last();
        assert(!t.contains(sep)) by {
            if t.contains(sep) {
                let k = choose|k: int| 0 <= k < t.len() && t[k] == sep;
                assert(y[k] == sep);
            }
        }
        lemma_split_single(t, sep);
        assert(y.last() != sep) by {
            assert(y[y.len() - 1] == y.last());
        }
        assert(t.push(y.last()) =~= y);
        assert(seq![t].update(0, t.push(y.last())) =~= seq![y]);
    } else {
        assert(y =~= Seq::<char>::empty());
    }
}

/// Appending text free of the separator extends the last piece of a split.
pub proof fn lemma_split_extend(x: Seq<char>, y: Seq<char>, sep: char)
    requires
        !y.contains(sep),
    ensures
        split_spec(x + y, sep) == split_spec(x, sep).update(
            split_spec(x, sep).len() - 1,
            split_spec(x, sep).last() + y,
        ),
    decreases y.len(),
{
    lemma_split_shape(x, sep);
    let r = split_spec(x, sep);
    if y.len() == 0 {
        assert(x + y =~= x);
        assert(r.last() + y =~= r.last());
        assert(r.update(r.len() - 1, r.last()) =~= r);
    } else {
        let t = y.drop_last();
        assert(!t.contains(sep)) by {
            if t.contains(sep) {
                let k = choose|k: int| 0 <= k < t.len() && t[k] == sep;
                assert(y[k] == sep);
            }
        }
        lemma_split_extend(x, t, sep);
        assert(y.last() != sep) by {
            assert(y[y.len() - 1] == y.last());
        }
        assert((x + y).drop_last() =~= x + t);
        assert((x + y).last() == y.last());
        let r1 = r.update(r.len() - 1, r.last() + t);
        assert(r1.last() == r.last() + t);
        assert(r1.update(r1.len() - 1, r1.last().push(y.last())) =~= r.update(
            r.len() - 1,
            r.last() + y,
        )) by {
            assert((r.last() + t).push(y.last()) =~= r.last() + y);
        }
    }
}

/// Splitting the joined pieces gives back the pieces, when none of them holds
/// the separator.
pub proof fn lemma_split_join(parts: Seq<Seq<char>>, sep: char)
    requires
        parts.len() >= 1,
        pieces_free_of(parts, sep),
    ensures
        split_spec(join_spec(parts, sep), sep) == parts,
    decreases parts.len(),
{
    if parts.len() == 1 {
        assert(!parts[0].contains(sep));
        lemma_split_single(parts[0], sep);
        assert(seq![parts[0]] =~= parts);
    } else {
        let init = parts.drop_last();
        assert(pieces_free_of(init, sep)) by {
            assert forall|i: int| 0 <= i < init.len() implies !(#[trigger] init[i]).contains(sep) by {
                assert(init[i] == parts[i]);
            }
        }
        lemma_split_join(init, sep);
        let x = join_spec(init, sep).push(sep);
        let y = parts.last();
        assert(!y.contains(sep)) by {
            assert(y == parts[parts.len() - 1]);
        }
        lemma_split_extend(x, y, sep);
        lemma_split_shape(x, sep);
        let r = split_spec(x, sep);
        assert(x.drop_last() =~= join_spec(init, sep));
        assert(r =~= init.push(Seq::<char>::empty()));
        assert(r.update(r.len() - 1, r.last() + y) =~= parts) by {
            assert(r.last() + y =~= y);
        }
    }
}

/// Two joins that agree come from the same pieces, when no piece holds the
/// separator.
pub proof fn lemma_join_injective(a: Seq<Seq<char>>, b: Seq<Seq<char>>, sep: char)
    requires
        a.len() >= 1,
        b.len() >= 1,
        pieces_free_of(a, sep),
        pieces_free_of(b, sep),
        join_spec(a, sep) == join_spec(b, sep),
    ensures
        a == b,
{
    lemma_split_join(a, sep);
    lemma_split_join(b, sep);
}

/// The pieces of `s` between occurrences of `sep` (`str::split`).
pub fn split_char(s: &str, sep: char) -> (r: Vec<String>)
    ensures
        r.deep_view() == split_spec(s@, sep),
{
    let cs = chars_of(s);
    let mut out: Vec<String> = Vec::new();
    let mut cur = String::new();
    let mut i: usize = 0;
    assert(cs@.take(0) =~= Seq::<char>::empty());
    assert(out.deep_view().push(cur@) =~= split_spec(cs@.take(0), sep));
    while i < cs.len()
        invariant
            cs@ == s@,
            i <= cs.len(),
            out.deep_view().push(cur@) == split_spec(cs@.take(i as int), sep),
        decreases cs.len() - i,
    {
        let c = cs[i];
        let ghost before = cs@.take(i as int);
        assert(cs@.take(i + 1) =~= before.push(c));
        assert(cs@.take(i + 1).drop_last() =~= before);
        if c == sep {
            let ghost od = out.deep_view();
            let ghost cv = cur@;
            out.push(cur);
            cur = String::new();
            assert(out.deep_view() =~= od.push(cv));
            assert(out.deep_view().push(cur@) =~= split_spec(cs@.take(i + 1), sep));
        } else {
            let ghost pc = cur@;
            cur.push(c);
            assert(out.deep_view().push(cur@) =~= out.deep_view().push(pc).update(
                out.deep_view().len() as int,
                pc.push(c),
            ));
        }
        i = i + 1;
    }
    assert(cs@.take(cs.len() as int) =~= cs@);
    let ghost od = out.deep_view();
    out.push(cur);
    assert(out.deep_view() =~= od.push(cur@));
    out
}

/// The pieces of `parts` glued together with `sep` between neighbours
/// (`[String]::join`).
pub fn join_char(parts: &Vec<String>, sep: char) -> (r: String)
    ensures
        r@ == join_spec(parts.deep_view(), sep),
{
    let mut r = String::new();
    let mut i: usize = 0;
    assert(parts.deep_view().take(0) =~= Seq::<Seq<char>>::empty());
    while i < parts.len()
        invariant
            i <= parts.len(),
            r@ == join_spec(parts.deep_view().take(i as int), sep),
        decreases parts.len() - i,
    {
        let ghost dv = parts.deep_view();
        assert(dv.take(i + 1).drop_last() =~= dv.take(i as int));
        assert(dv.take(i + 1).last() == parts@[i as int]@);
        if i > 0 {
            r.push(sep);
        } else {
            assert(dv.take(1) =~= seq![parts@[0]@]);
        }
        r.append(parts[i].as_str());
        i = i + 1;
    }
    assert(parts.deep_view().take(parts.len() as int) =~= parts.deep_view());
    r
}

/// A `String` holding the characters `cs[from..to]`.
pub fn string_of(cs: &Vec<char>, from: usize, to: usize) -> (r: String)
    requires
        from <= to <= cs.len(),
    ensures
        r@ == cs@.subrange(from as int, to as int),
{
    let mut r = String::new();
    let mut i = from;
    while i < to
        invariant
            from <= i <= to <= cs.len(),
            r@ == cs@.subrange(from as int, i as int),
        decreases to - i,
    {
        r.push(cs[i]);
        assert(cs@.subrange(from as int, i + 1) =~= cs@.subrange(from as int, i as int).push(cs@[i as int]));
        i = i + 1;
    }
    r
}

// ---------------------------------------------------------------------------
// Replacing
// ---------------------------------------------------------------------------

/// `s` with every occurrence of the character `from` replaced by `to`
/// (`str::replace` with a `char` pattern).
pub open spec fn replace_char_spec(s: Seq<char>, from: char, to: Seq<char>) -> Seq<char>
    decreases s.len(),
{
    if s.len() == 0 {
        Seq::<char>::empty()
    } else {
        replace_char_spec(s.drop_last(), from, to) + (if s.last() == from {
            to
        } else {
            seq![s.last()]
        })
    }
}

/// When the replacement does not hold the replaced character, the result
/// does not hold it either.
pub proof fn lemma_replace_char_removes(s: Seq<char>, from: char, to: Seq<char>)
    requires
        !to.contains(from),
    ensures
        !replace_char_spec(s, from, to).contains(from),
    decreases s.len(),
{
    if s.len() > 0 {
        lemma_replace_char_removes(s.drop_last(), from, to);
        let a = replace_char_spec(s.drop_last(), from, to);
        let b = if s.last() == from {
            to
        } else {
            seq![s.last()]
        };
        assert(!b.contains(from)) by {
            if s.last() != from && b.contains(from) {
                let k = choose|k: int| 0 <= k < b.len() && b[k] == from;
                assert(b[k] == s.last());
            }
        }
        assert(!(a + b).contains(from)) by {
            if (a + b).contains(from) {
                let k = choose|k: int| 0 <= k < (a + b).len() && (a + b)[k] == from;
                if k < a.len() {
                    assert(a[k] == from);
                } else {
                    assert(b[k - a.len()] == from);
                }
            }
        }
    }
}

/// `s` with every occurrence of the character `from` replaced by `to`.
pub fn replace_char(s: &str, from: char, to: &str) -> (r: String)
    ensures
        r@ == replace_char_spec(s@, from, to@),
{
    let cs = chars_of(s);
    let mut r = String::new();
    let mut i: usize = 0;
    assert(cs@.take(0) =~= Seq::<char>::empty());
    while i < cs.len()
        invariant
            cs@ == s@,
            i <= cs.len(),
            r@ == replace_char_spec(cs@.take(i as int), from, to@),
        decreases cs.len() - i,
    {
        let c = cs[i];
        assert(cs@.take(i + 1).drop_last() =~= cs@.take(i as int));
        assert(cs@.take(i + 1).last() == c);
        if c == from {
            r.append(to);
        } else {
            let ghost before = r@;
            r.push(c);
            assert(r@ =~= before + seq![c]);
        }
        i = i + 1;
    }
    assert(cs@.take(cs.len() as int) =~= cs@);
    r
}

/// Replacing a character in two strings put together is replacing it in
/// each of them.
pub proof fn lemma_replace_char_concat(a: Seq<char>, b: Seq<char>, from: char, to: Seq<char>)
    ensures
        replace_char_spec(a + b, from, to) == replace_char_spec(a, from, to) + replace_char_spec(
            b,
            from,
            to,
        ),
    decreases b.len(),
{
    let ra = replace_char_spec(a, from, to);
    if b.len() == 0 {
        assert(a + b =~= a);
        assert(ra + replace_char_spec(b, from, to) =~= ra);
    } else {
        lemma_replace_char_concat(a, b.drop_last(), from, to);
        assert((a + b).drop_last() =~= a + b.drop_last());
        assert((a + b).last() == b.last());
        let tail = if b.last() == from {
            to
        } else {
            seq![b.last()]
        };
        let rb = replace_char_spec(b.drop_last(), from, to);
        assert(ra + rb + tail =~= ra + (rb + tail));
    }
}

/// A string that does not hold the replaced character is left as it is.
pub proof fn lemma_replace_char_absent(s: Seq<char>, from: char, to: Seq<char>)
    requires
        !s.contains(from),
    ensures
        replace_char_spec(s, from, to) == s,
    decreases s.len(),
{
    if s.len() > 0 {
        let init = s.drop_last();
        assert(!init.contains(from)) by {
            if init.contains(from) {
                let k = choose|k: int| 0 <= k < init.len() && init[k] == from;
                assert(s[k] == from);
            }
        }
        lemma_replace_char_absent(init, from, to);
        assert(s[s.len() - 1] == s.last());
        assert(init + seq![s.last()] =~= s);
    }
}

/// Replacing a character brings in no character that neither the string
/// nor the replacement holds.
pub proof fn lemma_replace_char_keeps_out(s: Seq<char>, from: char, to: Seq<char>, d: char)
    requires
        !s.contains(d),
        !to.contains(d),
    ensures
        !replace_char_spec(s, from, to).contains(d),
    decreases s.len(),
{
    if s.len() > 0 {
        let init = s.drop_last();
        assert(!init.contains(d)) by {
            if init.contains(d) {
                let k = choose|k: int| 0 <= k < init.len() && init[k] == d;
                assert(s[k] == d);
            }
        }
        lemma_replace_char_keeps_out(init, from, to, d);
        let a = replace_char_spec(init, from, to);
        let b = if s.last() == from {
            to
        } else {
            seq![s.last()]
        };
        assert(s[s.len() - 1] == s.last());
        assert(!b.contains(d)) by {
            if s.last() != from && b.contains(d) {
                let k = choose|k: int| 0 <= k < b.len() && b[k] == d;
                assert(b[k] == s.last());
            }
        }
        assert(!(a + b).contains(d)) by {
            if (a + b).contains(d) {
                let k = choose|k: int| 0 <= k < (a + b).len() && (a + b)[k] == d;
                if k < a.len() {
                    assert(a[k] == d);
                } else {
                    assert(b[k - a.len()] == d);
                }
            }
        }
    }
}

/// `s` with the non-overlapping occurrences of `pat`, found from left to
/// right, replaced by `rep` (`str::replace` with a non-empty `&str` pattern).
pub open spec fn replace_str_spec(s: Seq<char>, pat: Seq<char>, rep: Seq<char>) -> Seq<char>
    decreases s.len(),
{
    if s.len() == 0 {
        Seq::<char>::empty()
    } else if 0 < pat.len() <= s.len() && s.take(pat.len() as int) == pat {
        rep + replace_str_spec(s.skip(pat.len() as int), pat, rep)
    } else {
        seq![s[0]] + replace_str_spec(s.skip(1), pat, rep)
    }
}

/// Whether `pat` occurs in `cs` at position `i`.
fn occurs_at(cs: &Vec<char>, i: usize, pat: &Vec<char>) -> (r: bool)
    requires
        i <= cs.len(),
    ensures
        r == (pat.len() <= cs.len() - i && cs@.subrange(i as int, i + pat.len()) == pat@),
{
    if pat.len() > cs.len() - i {
        return false;
    }
    let mut k: usize = 0;
    while k < pat.len()
        invariant
            pat.len() <= cs.len() - i,
            k <= pat.len(),
            forall|j: int| 0 <= j < k ==> cs@[i + j] == pat@[j],
        decreases pat.len() - k,
    {
        if cs[i + k] != pat[k] {
            assert(cs@.subrange(i as int, i + pat.len())[k as int] != pat@[k as int]);
            return false;
        }
        k = k + 1;
    }
    assert(cs@.subrange(i as int, i + pat.len()) =~= pat@);
    true
}

/// Text that does not hold the first character of the pattern is passed
/// over as it is, and the replacing goes on after it.
pub proof fn lemma_replace_str_passes(x: Seq<char>, s: Seq<char>, pat: Seq<char>, rep: Seq<char>)
    requires
        pat.len() > 0,
        !x.contains(pat[0]),
    ensures
        replace_str_spec(x + s, pat, rep) == x + replace_str_spec(s, pat, rep),
    decreases x.len(),
{
    let r = replace_str_spec(s, pat, rep);
    if x.len() == 0 {
        assert(x + s =~= s);
        assert(x + r =~= r);
    } else {
        let xs = x + s;
        assert(xs[0] == x[0]);
        assert(x[0] != pat[0]);
        if pat.len() <= xs.len() && xs.take(pat.len() as int) == pat {
            assert(xs.take(pat.len() as int)[0] == xs[0]);
        }
        let tail = x.skip(1);
        assert(xs.skip(1) =~= tail + s);
        assert(!tail.contains(pat[0])) by {
            if tail.contains(pat[0]) {
                let k = choose|k: int| 0 <= k < tail.len() && tail[k] == pat[0];
                assert(x[k + 1] == pat[0]);
            }
        }
        lemma_replace_str_passes(tail, s, pat, rep);
        assert(seq![x[0]] + (tail + r) =~= x + r);
    }
}

/// The pattern at the front is replaced, and the replacing goes on after it.
pub proof fn lemma_replace_str_front(s: Seq<char>, pat: Seq<char>, rep: Seq<char>)
    requires
        pat.len() > 0,
    ensures
        replace_str_spec(pat + s, pat, rep) == rep + replace_str_spec(s, pat, rep),
{
    let ps = pat + s;
    assert(ps.take(pat.len() as int) =~= pat);
    assert(ps.skip(pat.len() as int) =~= s);
}

/// Text that differs from the pattern at some position within both, and
/// holds the pattern's first character at most at its own front, is passed
/// over as it is, and the replacing goes on after it.
pub proof fn lemma_replace_str_passes_other(
    x: Seq<char>,
    s: Seq<char>,
    pat: Seq<char>,
    rep: Seq<char>,
    k: int,
)
    requires
        pat.len() > 0,
        0 <= k < x.len(),
        k < pat.len(),
        x[k] != pat[k],
        !x.skip(1).contains(pat[0]),
    ensures
        replace_str_spec(x + s, pat, rep) == x + replace_str_spec(s, pat, rep),
{
    let r = replace_str_spec(s, pat, rep);
    let xs = x + s;
    assert(xs[0] == x[0]);
    if pat.len() <= xs.len() && xs.take(pat.len() as int) == pat {
        assert(xs.take(pat.len() as int)[k] == x[k]);
    }
    let tail = x.skip(1);
    assert(xs.skip(1) =~= tail + s);
    lemma_replace_str_passes(tail, s, pat, rep);
    assert(seq![x[0]] + (tail + r) =~= x + r);
}

/// `s` with the non-overlapping occurrences of `pat`, from left to right,
/// replaced by `rep`.
pub fn replace_str(s: &str, pat: &str, rep: &str) -> (r: String)
    requires
        pat@.len() > 0,
    ensures
        r@ == replace_str_spec(s@, pat@, rep@),
{
    let cs = chars_of(s);
    let ps = chars_of(pat);
    let mut r = String::new();
    let mut i: usize = 0;
    assert(cs@.skip(0) =~= cs@);
    while i < cs.len()
        invariant
            cs@ == s@,
            ps@ == pat@,
            ps.len() > 0,
            i <= cs.len(),
            r@ + replace_str_spec(cs@.skip(i as int), ps@, rep@) == replace_str_spec(cs@, ps@, rep@),
        decreases cs.len() - i,
    {
        let ghost rest = cs@.skip(i as int);
        if occurs_at(&cs, i, &ps) {
            assert(rest.take(ps.len() as int) =~= cs@.subrange(i as int, i + ps.len()));
            assert(rest.skip(ps.len() as int) =~= cs@.skip(i + ps.len()));
            let ghost before = r@;
            r.append(rep);
            assert(r@ + replace_str_spec(cs@.skip(i + ps.len()), ps@, rep@) =~= before + replace_str_spec(rest, ps@, rep@));
            i = i + ps.len();
        } else {
            assert(ps.len() > rest.len() ==> !(0 < ps@.len() <= rest.len()));
            assert(ps.len() <= rest.len() ==> rest.take(ps.len() as int) =~= cs@.subrange(i as int, i + ps.len()));
            assert(rest.skip(1) =~= cs@.skip(i + 1));
            assert(rest[0] == cs@[i as int]);
            let ghost before = r@;
            r.push(cs[i]);
            assert(r@ + replace_str_spec(cs@.skip(i + 1), ps@, rep@) =~= before + replace_str_spec(rest, ps@, rep@));
            i = i + 1;
        }
    }
    assert(cs@.skip(cs.len() as int) =~= Seq::<char>::empty());
    assert(r@ + Seq::<char>::empty() =~= r@);
    r
}

// ---------------------------------------------------------------------------
// Trimming
// ---------------------------------------------------------------------------

/// The characters with the Unicode `White_Space` property, which
/// `char::is_whitespace` accepts.
pub open spec fn is_whitespace_spec(c: char) -> bool {
    ||| ('\u{9}' <= c && c <= '\u{d}')
    ||| c == ' '
    ||| c == '\u{85}'
    ||| c == '\u{a0}'
    ||| c == '\u{1680}'
    ||| ('\u{2000}' <= c && c <= '\u{200a}')
    ||| c == '\u{2028}'
    ||| c == '\u{2029}'
    ||| c == '\u{202f}'
    ||| c == '\u{205f}'
    ||| c == '\u{3000}'
}

/// Whether `c` is white space in the sense of Unicode's `White_Space`
/// property.
pub fn is_whitespace(c: char) -> (r: bool)
    ensures
        r == is_whitespace_spec(c),
{
    ('\u{9}' <= c && c <= '\u{d}') || c == ' ' || c == '\u{85}' || c == '\u{a0}' || c
        == '\u{1680}' || ('\u{2000}' <= c && c <= '\u{200a}') || c == '\u{2028}' || c
        == '\u{2029}' || c == '\u{202f}' || c == '\u{205f}' || c == '\u{3000}'
}

/// `s` without its leading white space.
pub open spec fn trim_start_spec(s: Seq<char>) -> Seq<char>
    decreases s.len(),
{
    if s.len() > 0 && is_whitespace_spec(s[0]) {
        trim_start_spec(s.skip(1))
    } else {
        s
    }
}

/// `s` without its trailing white space.
pub open spec fn trim_end_spec(s: Seq<char>) -> Seq<char>
    decreases s.len(),
{
    if s.len() > 0 && is_whitespace_spec(s.last()) {
        trim_end_spec(s.drop_last())
    } else {
        s
    }
}

/// `s` without leading and trailing white space (`str::trim`).
pub open spec fn trim_spec(s: Seq<char>) -> Seq<char> {
    trim_end_spec(trim_start_spec(s))
}

/// `s` without leading and trailing white space.
pub fn trim(s: &str) -> (r: String)
    ensures
        r@ == trim_spec(s@),
{
    let cs = chars_of(s);
    let mut a: usize = 0;
    assert(cs@.skip(0) =~= cs@);
    while a < cs.len() && is_whitespace(cs[a])
        invariant
            a <= cs.len(),
            trim_start_spec(cs@) == trim_start_spec(cs@.skip(a as int)),
        decreases cs.len() - a,
    {
        assert(cs@.skip(a as int).skip(1) =~= cs@.skip(a + 1));
        assert(cs@.skip(a as int)[0] == cs@[a as int]);
        a = a + 1;
    }
    let ghost t = cs@.skip(a as int);
    assert(a < cs.len() ==> t[0] == cs@[a as int]);
    assert(trim_start_spec(t) == t);
    let mut b: usize = cs.len();
    assert(cs@.subrange(a as int, b as int) =~= t);
    while b > a && is_whitespace(cs[b - 1])
        invariant
            a <= b <= cs.len(),
            trim_end_spec(t) == trim_end_spec(cs@.subrange(a as int, b as int)),
            t == cs@.skip(a as int),
        decreases b,
    {
        assert(cs@.subrange(a as int, b as int).drop_last() =~= cs@.subrange(a as int, b - 1));
        assert(cs@.subrange(a as int, b as int).last() == cs@[b - 1]);
        b = b - 1;
    }
    let ghost u = cs@.subrange(a as int, b as int);
    assert(b > a ==> u.last() == cs@[b - 1]);
    assert(trim_end_spec(u) == u);
    string_of(&cs, a, b)
}

/// The characters of Unicode's `White_Space` property, by code point: tab,
/// line feed, vertical tab, form feed, carriage return, space, next line,
/// no-break space, ogham space mark, the spaces from en quad to hair space,
/// line and paragraph separators, narrow no-break space, medium mathematical
/// space and ideographic space.
pub open spec fn unicode_white_space(c: char) -> bool {
    let n = c as u32;
    ||| (0x9 <= n && n <= 0xd)
    ||| n == 0x20
    ||| n == 0x85
    ||| n == 0xa0
    ||| n == 0x1680
    ||| (0x2000 <= n && n <= 0x200a)
    ||| n == 0x2028
    ||| n == 0x2029
    ||| n == 0x202f
    ||| n == 0x205f
    ||| n == 0x3000
}

/// Dropping leading white space from two strings put together: the first
/// keeps its place when anything of it is left, else the second loses its own.
proof fn lemma_trim_start_concat(s: Seq<char>, t: Seq<char>)
    ensures
        trim_start_spec(s + t) == (if trim_start_spec(s).len() > 0 {
            trim_start_spec(s) + t
        } else {
            trim_start_spec(t)
        }),
    decreases s.len(),
{
    if s.len() == 0 {
        assert(s + t =~= t);
    } else {
        let st = s + t;
        assert(st[0] == s[0]);
        if is_whitespace_spec(s[0]) {
            assert(st.skip(1) =~= s.skip(1) + t);
            lemma_trim_start_concat(s.skip(1), t);
        }
    }
}

/// White space put after a string leaves its trimmed form as it was.
proof fn lemma_trim_push_white(s: Seq<char>, c: char)
    requires
        is_whitespace_spec(c),
    ensures
        trim_spec(s.push(c)) == trim_spec(s),
{
    let c1 = seq![c];
    lemma_trim_start_concat(s, c1);
    assert(s + c1 =~= s.push(c));
    let a = trim_start_spec(s);
    if a.len() > 0 {
        assert((a + c1).drop_last() =~= a);
        assert((a + c1).last() == c);
    } else {
        assert(c1.skip(1) =~= Seq::<char>::empty());
        assert(trim_start_spec(c1) == trim_start_spec(c1.skip(1)));
    }
}

/// Trimming takes off white space, and only white space, at either end: a
/// character with Unicode's `White_Space` property (carriage return, vertical
/// tab and form feed among them) put before or after a string leaves its
/// trimmed form as it was, so the line ending "\r\n" of a line never stays in
/// it; any other character, alone, is kept.
pub proof fn lemma_trim_white_space(s: Seq<char>, c: char)
    ensures
        unicode_white_space(c) ==> trim_spec(s.push(c)) == trim_spec(s),
        unicode_white_space(c) ==> trim_spec(seq![c] + s) == trim_spec(s),
        !unicode_white_space(c) ==> trim_spec(seq![c]) == seq![c],
        trim_spec(s + seq!['\r', '\n']) == trim_spec(s),
{
    assert(unicode_white_space(c) <==> is_whitespace_spec(c));
    if unicode_white_space(c) {
        lemma_trim_push_white(s, c);
        assert((seq![c] + s).skip(1) =~= s);
        assert((seq![c] + s)[0] == c);
    } else {
        let c1 = seq![c];
        assert(trim_start_spec(c1) == c1);
        assert(c1.last() == c);
    }
    assert(unicode_white_space('\r'));
    assert(unicode_white_space('\n'));
    lemma_trim_push_white(s, '\r');
    lemma_trim_push_white(s.push('\r'), '\n');
    assert(s + seq!['\r', '\n'] =~= s.push('\r').push('\n'));
}

// ---------------------------------------------------------------------------
// Decimal numbers
// ---------------------------------------------------------------------------

/// The ASCII digit for `d`, for `d < 10`.
pub open spec fn digit_spec(d: nat) -> char {
    (48 + d) as char
}

/// Whether `c` is an ASCII decimal digit.
pub open spec fn is_digit_spec(c: char) -> bool {
    '0' <= c && c <= '9'
}

/// The decimal notation of `n`, without leading zeros (`"0"` for zero).
pub open spec fn decimal_spec(n: nat) -> Seq<char>
    decreases n,
{
    if n < 10 {
        seq![digit_spec(n)]
    } else {
        decimal_spec(n / 10).push(digit_spec(n % 10))
    }
}

/// The decimal notation of `n`, left-padded with `'0'` to at least `width`
/// characters (`format!("{n:0width$}")`).
pub open spec fn padded_spec(n: nat, width: nat) -> Seq<char> {
    let d = decimal_spec(n);
    if width > d.len() {
        Seq::new((width - d.len()) as nat, |_i: int| '0') + d
    } else {
        d
    }
}

/// The number that the ASCII digits `d` stand for.
pub open spec fn digits_value(d: Seq<char>) -> nat
    decreases d.len(),
{
    if d.len() == 0 {
        0
    } else {
        digits_value(d.drop_last()) * 10 + ((d.last() as nat) - 48) as nat
    }
}

/// Whether every character of `d` is an ASCII digit.
pub open spec fn all_digits(d: Seq<char>) -> bool {
    forall|i: int| 0 <= i < d.len() ==> is_digit_spec(#[trigger] d[i])
}

/// What `s.parse::<usize>()` gives: an optional `'+'`, then at least one
/// ASCII digit and nothing else, for a value that fits in `usize`.
pub open spec fn parse_usize_spec(s: Seq<char>) -> Option<usize> {
    if s.len() == 0 {
        None
    } else {
        let d = if s[0] == '+' && s.len() > 1 {
            s.skip(1)
        } else {
            s
        };
        if all_digits(d) && digits_value(d) <= usize::MAX {
            Some(digits_value(d) as usize)
        } else {
            None
        }
    }
}

/// The ASCII digit for `d`.
fn digit_char(d: usize) -> (c: char)
    requires
        d < 10,
    ensures
        c == digit_spec(d as nat),
        is_digit_spec(c),
{
    let b: u8 = 48u8 + (d as u8);
    b as char
}

/// Appends the decimal notation of `n` to `out`.
pub fn push_decimal(out: &mut String, n: usize)
    ensures
        final(out)@ == old(out)@ + decimal_spec(n as nat),
    decreases n,
{
    if n >= 10 {
        push_decimal(out, n / 10);
    }
    let ghost before = out@;
    out.push(digit_char(n % 10));
    assert(out@ =~= before + seq![digit_spec((n % 10) as nat)]);
}

/// The number of characters in the decimal notation of `n`.
pub fn decimal_len(n: usize) -> (r: usize)
    ensures
        r == decimal_spec(n as nat).len(),
        1 <= r <= 20,
    decreases n,
{
    if n < 10 {
        1
    } else {
        proof {
            lemma_decimal_len_bound(n as nat);
        }
        decimal_len(n / 10) + 1
    }
}

/// Ten to the power `k`.
pub open spec fn pow10(k: nat) -> nat
    decreases k,
{
    if k == 0 {
        1
    } else {
        10 * pow10((k - 1) as nat)
    }
}

/// Numbers below `10^k` have at most `k` decimal digits.
proof fn lemma_decimal_len_below(n: nat, k: nat)
    requires
        n < pow10(k),
        k >= 1,
    ensures
        decimal_spec(n).len() <= k,
    decreases k,
{
    if n >= 10 {
        assert(n / 10 < pow10((k - 1) as nat));
        assert(k - 1 >= 1) by {
            if k == 1 {
                assert(pow10(0) == 1);
            }
        }
        lemma_decimal_len_below(n / 10, (k - 1) as nat);
    }
}

/// A `usize` has at most twenty decimal digits.
proof fn lemma_decimal_len_bound(n: nat)
    requires
        n <= usize::MAX,
    ensures
        decimal_spec(n).len() <= 20,
{
    reveal_with_fuel(pow10, 21);
    assert(pow10(20) == 100000000000000000000nat);
    lemma_decimal_len_below(n, 20);
}

/// The decimal notation of `n` left-padded with zeros to `width` characters.
pub fn padded_decimal(n: usize, width: usize) -> (r: String)
    ensures
        r@ == padded_spec(n as nat, width as nat),
{
    let len = decimal_len(n);
    let mut r = String::new();
    if width > len {
        let mut k: usize = 0;
        while k < width - len
            invariant
                width > len,
                k <= width - len,
                r@ == Seq::new(k as nat, |_i: int| '0'),
            decreases width - len - k,
        {
            r.push('0');
            k = k + 1;
            assert(r@ =~= Seq::new(k as nat, |_i: int| '0'));
        }
    }
    push_decimal(&mut r, n);
    r
}

/// The decimal notation of `n`.
pub fn decimal(n: usize) -> (r: String)
    ensures
        r@ == decimal_spec(n as nat),
{
    let mut r = String::new();
    push_decimal(&mut r, n);
    assert(r@ =~= decimal_spec(n as nat));
    r
}

/// A longer prefix of a digit string never stands for a smaller number.
proof fn lemma_digits_value_prefix(d: Seq<char>, i: int, j: int)
    requires
        0 <= i <= j <= d.len(),
        all_digits(d),
    ensures
        digits_value(d.take(i)) <= digits_value(d.take(j)),
    decreases j - i,
{
    if i < j {
        lemma_digits_value_prefix(d, i, j - 1);
        assert(d.take(j).drop_last() =~= d.take(j - 1));
        assert(d.take(j).last() == d[j - 1]);
    }
}

/// The decimal notation of `n` is a non-empty string of digits that stands
/// for `n`.
pub proof fn lemma_decimal_digits(n: nat)
    ensures
        decimal_spec(n).len() >= 1,
        all_digits(decimal_spec(n)),
        digits_value(decimal_spec(n)) == n,
    decreases n,
{
    if n < 10 {
        let d = decimal_spec(n);
        assert(d.drop_last() =~= Seq::<char>::empty());
        assert(digit_spec(n) as nat == 48 + n);
        assert(d.last() == digit_spec(n));
        assert(digits_value(d.drop_last()) == 0);
        assert(digits_value(d) == n);
    } else {
        assert(digit_spec(n % 10) as nat == 48 + n % 10);
        lemma_decimal_digits(n / 10);
        let p = decimal_spec(n / 10);
        let d = p.push(digit_spec(n % 10));
        assert(d.drop_last() =~= p);
        assert(d.last() == digit_spec(n % 10));
        assert(d == decimal_spec(n));
        assert(digits_value(d) == digits_value(p) * 10 + ((d.last() as nat) - 48) as nat);
        assert(n == (n / 10) * 10 + n % 10);
        assert(digits_value(d) == n);
        assert forall|i: int| 0 <= i < d.len() implies is_digit_spec(#[trigger] d[i]) by {
            if i < p.len() {
                assert(d[i] == p[i]);
            }
        }
    }
}

/// Leading zeros do not change the number that digits stand for.
proof fn lemma_leading_zeros(z: nat, d: Seq<char>)
    ensures
        digits_value(Seq::new(z, |_i: int| '0') + d) == digits_value(d),
    decreases d.len(),
{
    let zs = Seq::new(z, |_i: int| '0');
    if d.len() == 0 {
        assert(zs + d =~= zs);
        lemma_zeros_value(z);
    } else {
        lemma_leading_zeros(z, d.drop_last());
        assert((zs + d).drop_last() =~= zs + d.drop_last());
        assert((zs + d).last() == d.last());
    }
}

/// A run of zeros stands for zero.
proof fn lemma_zeros_value(z: nat)
    ensures
        digits_value(Seq::new(z, |_i: int| '0')) == 0,
    decreases z,
{
    if z > 0 {
        lemma_zeros_value((z - 1) as nat);
        assert(Seq::new(z, |_i: int| '0').drop_last() =~= Seq::new((z - 1) as nat, |_i: int| '0'));
    }
}

/// A zero-padded decimal notation is a non-empty string of digits that
/// stands for the number, and parsing it gives the number back.
pub proof fn lemma_padded_parses(n: usize, width: nat)
    ensures
        padded_spec(n as nat, width).len() >= 1,
        all_digits(padded_spec(n as nat, width)),
        digits_value(padded_spec(n as nat, width)) == n,
        parse_usize_spec(padded_spec(n as nat, width)) == Some(n),
{
    lemma_decimal_digits(n as nat);
    let d = decimal_spec(n as nat);
    let p = padded_spec(n as nat, width);
    if width > d.len() {
        let z = (width - d.len()) as nat;
        lemma_leading_zeros(z, d);
        assert forall|i: int| 0 <= i < p.len() implies is_digit_spec(#[trigger] p[i]) by {
            if i >= z {
                assert(p[i] == d[i - z]);
            }
        }
    }
    assert(p[0] != '+') by {
        assert(is_digit_spec(p[0]));
    }
}

/// Digit strings hold neither `'-'` nor `'/'`.
pub proof fn lemma_digits_free_of(d: Seq<char>, c: char)
    requires
        all_digits(d),
        !is_digit_spec(c),
    ensures
        !d.contains(c),
{
    if d.contains(c) {
        let k = choose|k: int| 0 <= k < d.len() && d[k] == c;
        assert(is_digit_spec(d[k]));
    }
}

/// `a` comes strictly before `b` in the order of strings (the order of the
/// first differing character, a proper prefix first).
pub open spec fn lex_lt(a: Seq<char>, b: Seq<char>) -> bool
    decreases a.len(),
{
    if a.len() == 0 {
        b.len() > 0
    } else if b.len() == 0 {
        false
    } else if a[0] < b[0] {
        true
    } else if a[0] == b[0] {
        lex_lt(a.skip(1), b.skip(1))
    } else {
        false
    }
}

/// A digit string stands for less than ten to the power of its length.
proof fn lemma_digits_value_below(d: Seq<char>)
    requires
        all_digits(d),
    ensures
        digits_value(d) < pow10(d.len()),
    decreases d.len(),
{
    if d.len() > 0 {
        let t = d.drop_last();
        assert(all_digits(t)) by {
            assert forall|i: int| 0 <= i < t.len() implies is_digit_spec(#[trigger] t[i]) by {
                assert(t[i] == d[i]);
            }
        }
        lemma_digits_value_below(t);
        assert(is_digit_spec(d[d.len() - 1]));
    }
}

/// The first digit of a digit string counts ten to the power of the number
/// of digits after it.
proof fn lemma_digits_value_front(c: char, t: Seq<char>)
    requires
        is_digit_spec(c),
    ensures
        digits_value(seq![c] + t) == (((c as nat) - 48) as nat) * pow10(t.len()) + digits_value(t),
    decreases t.len(),
{
    let a = ((c as nat) - 48) as nat;
    if t.len() == 0 {
        assert((seq![c] + t).drop_last() =~= Seq::<char>::empty());
        assert(seq![c] + t =~= seq![c]);
        assert(digits_value(seq![c]) == digits_value(Seq::<char>::empty()) * 10 + a);
        assert(pow10(0) == 1);
        assert(a * pow10(t.len()) == a);
    } else {
        let u = t.drop_last();
        lemma_digits_value_front(c, u);
        let x = seq![c] + t;
        assert(x.drop_last() =~= seq![c] + u);
        assert(x.last() == t.last());
        let dl = ((t.last() as nat) - 48) as nat;
        assert(digits_value(x) == digits_value(seq![c] + u) * 10 + dl);
        assert(digits_value(t) == digits_value(u) * 10 + dl);
        let p = pow10(u.len());
        assert(pow10(t.len()) == 10 * p);
        assert((a * p + digits_value(u)) * 10 == a * (10 * p) + digits_value(u) * 10) by (nonlinear_arith);
        assert(digits_value(x) == a * pow10(t.len()) + digits_value(t));
    }
}

/// For digit strings of the same length, the order of strings is the order
/// of the numbers they stand for.
pub proof fn lemma_digit_strings_order(x: Seq<char>, y: Seq<char>)
    requires
        x.len() == y.len(),
        all_digits(x),
        all_digits(y),
    ensures
        lex_lt(x, y) <==> digits_value(x) < digits_value(y),
    decreases x.len(),
{
    if x.len() > 0 {
        let xt = x.skip(1);
        let yt = y.skip(1);
        assert(all_digits(xt)) by {
            assert forall|i: int| 0 <= i < xt.len() implies is_digit_spec(#[trigger] xt[i]) by {
                assert(xt[i] == x[i + 1]);
            }
        }
        assert(all_digits(yt)) by {
            assert forall|i: int| 0 <= i < yt.len() implies is_digit_spec(#[trigger] yt[i]) by {
                assert(yt[i] == y[i + 1]);
            }
        }
        assert(x =~= seq![x[0]] + xt);
        assert(y =~= seq![y[0]] + yt);
        lemma_digits_value_front(x[0], xt);
        lemma_digits_value_front(y[0], yt);
        lemma_digits_value_below(xt);
        lemma_digits_value_below(yt);
        lemma_digit_strings_order(xt, yt);
        assert(is_digit_spec(x[0]));
        assert(is_digit_spec(y[0]));
        let a = ((x[0] as nat) - 48) as nat;
        let b = ((y[0] as nat) - 48) as nat;
        let p = pow10(xt.len());
        let vx = digits_value(xt);
        let vy = digits_value(yt);
        if x[0] < y[0] {
            assert(a * p + vx < b * p + vy) by (nonlinear_arith)
                requires
                    a < b,
                    vx < p,
                    0 <= vy,
            ;
        } else if x[0] > y[0] {
            assert(b * p + vy < a * p + vx) by (nonlinear_arith)
                requires
                    b < a,
                    vy < p,
                    0 <= vx,
            ;
        }
    }
}

/// Comparing two strings that begin with parts of the same length compares
/// those parts first, then what follows them.
pub proof fn lemma_lex_lt_concat(a: Seq<char>, c: Seq<char>, b: Seq<char>, d: Seq<char>)
    requires
        a.len() == b.len(),
    ensures
        lex_lt(a + c, b + d) <==> (lex_lt(a, b) || (a == b && lex_lt(c, d))),
    decreases a.len(),
{
    if a.len() == 0 {
        assert(a + c =~= c);
        assert(b + d =~= d);
        assert(a =~= b);
    } else {
        lemma_lex_lt_concat(a.skip(1), c, b.skip(1), d);
        assert((a + c).skip(1) =~= a.skip(1) + c);
        assert((b + d).skip(1) =~= b.skip(1) + d);
        assert((a + c)[0] == a[0]);
        assert((b + d)[0] == b[0]);
        if a[0] == b[0] && a.skip(1) == b.skip(1) {
            assert(a =~= b) by {
                assert(a =~= seq![a[0]] + a.skip(1));
                assert(b =~= seq![b[0]] + b.skip(1));
            }
        }
        if a == b {
            assert(a.skip(1) == b.skip(1));
        }
    }
}

/// Numbers zero-padded to a width that fits both compare as strings in the
/// order of the numbers.
pub proof fn lemma_padded_order(n: usize, m: usize, width: nat)
    requires
        decimal_spec(n as nat).len() <= width,
        decimal_spec(m as nat).len() <= width,
    ensures
        padded_spec(n as nat, width).len() == width,
        padded_spec(m as nat, width).len() == width,
        lex_lt(padded_spec(n as nat, width), padded_spec(m as nat, width)) <==> n < m,
{
    lemma_padded_parses(n, width);
    lemma_padded_parses(m, width);
    lemma_digit_strings_order(padded_spec(n as nat, width), padded_spec(m as nat, width));
}

/// Numbers no larger than `total` have no more digits than `total`.
pub proof fn lemma_decimal_len_at_most(n: nat, total: nat)
    requires
        n <= total,
    ensures
        decimal_spec(n).len() <= decimal_spec(total).len(),
    decreases total,
{
    if n >= 10 && total >= 10 {
        lemma_decimal_len_at_most(n / 10, total / 10);
    }
}

/// `s.parse::<usize>()`.
pub fn parse_usize(s: &str) -> (r: Option<usize>)
    ensures
        r == parse_usize_spec(s@),
{
    let cs = chars_of(s);
    if cs.len() == 0 {
        return None;
    }
    let start: usize = if cs[0] == '+' && cs.len() > 1 {
        1
    } else {
        0
    };
    let ghost d = if cs@[0] == '+' && cs.len() > 1 {
        cs@.skip(1)
    } else {
        cs@
    };
    assert(d =~= cs@.skip(start as int));
    let mut v: usize = 0;
    let mut i: usize = start;
    assert(d.take(0) =~= Seq::<char>::empty());
    while i < cs.len()
        invariant
            cs@ == s@,
            start <= i <= cs.len(),
            cs.len() > 0,
            d == cs@.skip(start as int),
            d == (if s@[0] == '+' && s@.len() > 1 {
                s@.skip(1)
            } else {
                s@
            }),
            all_digits(d.take(i - start)),
            v == digits_value(d.take(i - start)),
        decreases cs.len() - i,
    {
        let c = cs[i];
        let ghost k = i - start;
        assert(d[k] == c);
        assert(d.take(k + 1).drop_last() =~= d.take(k));
        assert(d.take(k + 1).last() == c);
        if !('0' <= c && c <= '9') {
            assert(!all_digits(d)) by {
                assert(!is_digit_spec(d[k]));
            }
            return None;
        }
        let dv: usize = (c as u32 - 48) as usize;
        assert(all_digits(d.take(k + 1))) by {
            assert forall|j: int| 0 <= j < k + 1 implies is_digit_spec(#[trigger] d.take(k + 1)[j]) by {
                if j < k {
                    assert(d.take(k + 1)[j] == d.take(k)[j]);
                }
            }
        }
        match v.checked_mul(10) {
            None => {
                proof {
                    if all_digits(d) {
                        lemma_digits_value_prefix(d, k + 1, d.len() as int);
                        assert(d.take(d.len() as int) =~= d);
                    }
                }
                return None;
            }
            Some(v10) => {
                match v10.checked_add(dv) {
                    None => {
                        proof {
                            if all_digits(d) {
                                lemma_digits_value_prefix(d, k + 1, d.len() as int);
                                assert(d.take(d.len() as int) =~= d);
                            }
                        }
                        return None;
                    }
                    Some(nv) => {
                        v = nv;
                    }
                }
            }
        }
        i = i + 1;
    }
    assert(d.take(cs.len() - start) =~= d);
    Some(v)
}

/// The characters of `s`, in order.
pub fn chars_of(s: &str) -> (r: Vec<char>)
    ensures
        r@ == s@,
{
    let mut r: Vec<char> = Vec::new();
    for c in it: s.chars()
        invariant
            r@ == it.seq().take(it.index() as int),
    {
        r.push(c);
    }
    r
}

} // verus!
