//! The global guarantees of the merge orchestrator, proved over the codec
//! specifications: merging is a fixed point under an unchanged timestamp,
//! merging twice leaves exactly one managed region, and user content
//! outside the markers survives a merge unchanged up to trailing
//! whitespace.

use vstd::prelude::*;
use crate::text::{
    is_ws_char, spec_lines, spec_split, spec_trim, spec_trim_end, spec_trim_start, strip_cr,
};
use crate::hosts::{
    disclaimer_spec, doc_block, doc_blocks, end_marker_spec, is_end_line, is_start_line,
    join_lines, last_updated_prefix_spec, source_prefix_spec, spec_has_start,
    spec_merge, spec_render, spec_strip, start_marker_spec, strip_lines, strip_state,
};

verus! {

// ------------------------------------------------------------------
// Vocabulary
// ------------------------------------------------------------------

/// Newline segments of a text.
pub open spec fn segs(s: Seq<char>) -> Seq<Seq<char>> {
    spec_split(s, '\n')
}

/// No carriage return anywhere.
pub open spec fn no_cr(s: Seq<char>) -> bool {
    forall|i: int| 0 <= i < s.len() ==> s[i] != '\r'
}

/// No newline anywhere.
pub open spec fn no_nl(s: Seq<char>) -> bool {
    forall|i: int| 0 <= i < s.len() ==> s[i] != '\n'
}

/// Neither a start-marker nor an end-marker line.
pub open spec fn not_marker(l: Seq<char>) -> bool {
    !is_start_line(l) && !is_end_line(l)
}

/// No line of the sequence is a marker line.
pub open spec fn no_marker_lines(ls: Seq<Seq<char>>) -> bool {
    forall|i: int| 0 <= i < ls.len() ==> not_marker(ls[i])
}

/// No segment of the text is a marker line.
pub open spec fn segs_marker_free(s: Seq<char>) -> bool {
    no_marker_lines(segs(s))
}

/// A text whose own merge output it could be: trimmed, free of carriage
/// returns, with no marker line in it.
pub open spec fn clean(t: Seq<char>) -> bool {
    &&& no_cr(t)
    &&& spec_trim_end(t) == t
    &&& segs_marker_free(t)
}

/// A timestamp that stays on its comment line.
pub open spec fn ts_ok(ts: Seq<char>) -> bool {
    no_nl(ts)
}

/// A document whose rendered block cannot forge or break the region
/// markers: a single-line origin, and no body line that trims to a
/// marker.
pub open spec fn doc_ok(d: (Seq<char>, Seq<char>)) -> bool {
    &&& no_nl(d.0)
    &&& no_marker_lines(segs(spec_trim(d.1)))
}

/// Every document of the run is well-behaved.
pub open spec fn docs_ok(docs: Seq<(Seq<char>, Seq<char>)>) -> bool {
    forall|i: int| 0 <= i < docs.len() ==> doc_ok(docs[i])
}

// ------------------------------------------------------------------
// Trimming lemmas
// ------------------------------------------------------------------

/// Trailing-whitespace trimming yields a prefix.
proof fn lemma_trim_end_is_prefix(s: Seq<char>)
    ensures
        spec_trim_end(s).len() <= s.len(),
        spec_trim_end(s) == s.take(spec_trim_end(s).len() as int),
    decreases s.len(),
{
    if s.len() > 0 && is_ws_char(s.last()) {
        lemma_trim_end_is_prefix(s.drop_last());
        assert(s.drop_last().take(spec_trim_end(s).len() as int) =~= s.take(
            spec_trim_end(s).len() as int,
        ));
    } else {
        assert(s.take(s.len() as int) =~= s);
    }
}

/// A trimmed text is empty or ends in a non-whitespace character.
proof fn lemma_trim_end_last(s: Seq<char>)
    ensures
        spec_trim_end(s).len() > 0 ==> !is_ws_char(spec_trim_end(s).last()),
    decreases s.len(),
{
    if s.len() > 0 && is_ws_char(s.last()) {
        lemma_trim_end_last(s.drop_last());
    }
}

proof fn lemma_trim_end_idempotent(s: Seq<char>)
    ensures
        spec_trim_end(spec_trim_end(s)) == spec_trim_end(s),
{
    lemma_trim_end_last(s);
}

/// Appending a whitespace character does not change the trimmed text.
proof fn lemma_trim_end_push_ws(s: Seq<char>, c: char)
    requires
        is_ws_char(c),
    ensures
        spec_trim_end(s.push(c)) == spec_trim_end(s),
{
    assert(s.push(c).last() == c);
    assert(s.push(c).drop_last() =~= s);
}

/// Trimming both ends ignores a trailing whitespace character too.
proof fn lemma_trim_push_ws(s: Seq<char>, c: char)
    requires
        is_ws_char(c),
    ensures
        spec_trim(s.push(c)) == spec_trim(s),
{
    lemma_trim_end_push_ws(s, c);
}

/// A carriage return is whitespace, so dropping one off the end leaves
/// the trimmed line alone.
proof fn lemma_trim_strip_cr(l: Seq<char>)
    ensures
        spec_trim(strip_cr(l)) == spec_trim(l),
{
    if l.len() > 0 && l.last() == '\r' {
        assert(strip_cr(l).push('\r') =~= l);
        lemma_trim_push_ws(strip_cr(l), '\r');
    }
}

/// Leading-whitespace trimming of a text that starts with a visible
/// character does nothing.
proof fn lemma_trim_start_noop(s: Seq<char>)
    requires
        s.len() == 0 || !is_ws_char(s[0]),
    ensures
        spec_trim_start(s) == s,
{
}

/// For a line opening with a visible character, the trimmed line is a
/// prefix of the line.
proof fn lemma_trim_prefix_form(l: Seq<char>)
    requires
        l.len() > 0,
        !is_ws_char(l[0]),
    ensures
        spec_trim(l) == spec_trim_end(l),
        spec_trim(l) == l.take(spec_trim(l).len() as int),
        spec_trim(l).len() <= l.len(),
    decreases l.len(),
{
    lemma_trim_end_is_prefix(l);
    let te = spec_trim_end(l);
    if te.len() > 0 {
        assert(te[0] == l[0]);
        lemma_trim_start_noop(te);
    } else {
        lemma_trim_start_noop(te);
    }
}

/// A line opening with a visible character cannot trim to a text that
/// differs from it within the shorter of the two.
proof fn lemma_line_not_marker_by_index(l: Seq<char>, m: Seq<char>, i: int)
    requires
        0 <= i < l.len(),
        i < m.len(),
        !is_ws_char(l[0]),
        l[i] != m[i],
    ensures
        spec_trim(l) != m,
{
    lemma_trim_prefix_form(l);
    if spec_trim(l) == m {
        assert(spec_trim(l)[i] == l[i]);
    }
}

// ------------------------------------------------------------------
// Segment lemmas
// ------------------------------------------------------------------

/// Strip one trailing carriage return from every line.
pub open spec fn mapcr(g: Seq<Seq<char>>) -> Seq<Seq<char>> {
    g.map_values(|l: Seq<char>| strip_cr(l))
}

/// The logical lines of a text, in terms of its segments.
proof fn lemma_lines_as_mapcr(s: Seq<char>)
    ensures
        segs(s).len() >= 1,
        spec_lines(s) == (if segs(s).last().len() == 0 {
            mapcr(segs(s).drop_last())
        } else {
            mapcr(segs(s).drop_last()).push(segs(s).last())
        }),
{
    crate::text::lemma_split_len(s, '\n');
    let g = segs(s);
    if g.last().len() == 0 {
        assert(spec_lines(s) =~= mapcr(g.drop_last()));
    } else {
        assert(spec_lines(s) =~= mapcr(g.drop_last()).push(g.last()));
    }
}

/// A newline between two texts splits their segments apart.
proof fn lemma_segs_nl_concat(x: Seq<char>, y: Seq<char>)
    ensures
        segs(x + seq!['\n'] + y) == segs(x) + segs(y),
{
    crate::text::lemma_split_len(x, '\n');
    crate::text::lemma_split_len(y, '\n');
    let ny = seq!['\n'] + y;
    assert(ny[0] == '\n');
    assert(ny.drop_first() =~= y);
    assert(segs(ny) == seq![Seq::<char>::empty()] + segs(y));
    crate::text::lemma_split_concat(x, ny, '\n');
    assert(x + seq!['\n'] + y =~= x + ny);
    assert(segs(ny).first() == Seq::<char>::empty());
    assert(segs(ny).drop_first() =~= segs(y));
    assert(segs(x).last() + Seq::<char>::empty() =~= segs(x).last());
    assert(segs(x).drop_last() + seq![segs(x).last()] + segs(y) =~= segs(x) + segs(y));
}

/// Appending one character extends the last segment, or closes it when
/// the character is a newline.
proof fn lemma_segs_push_char(x: Seq<char>, c: char)
    ensures
        segs(x.push(c)) == (if c == '\n' {
            segs(x) + seq![Seq::<char>::empty()]
        } else {
            segs(x).drop_last().push(segs(x).last().push(c))
        }),
{
    crate::text::lemma_split_len(x, '\n');
    let single = seq![c];
    crate::text::lemma_split_concat(x, single, '\n');
    assert(x.push(c) =~= x + single);
    if c == '\n' {
        assert(single.drop_first() =~= Seq::<char>::empty());
        assert(segs(single) == seq![Seq::<char>::empty()] + segs(Seq::<char>::empty()));
        assert(segs(single).first() == Seq::<char>::empty());
        assert(segs(single).drop_first() =~= seq![Seq::<char>::empty()]);
        assert(segs(x).last() + Seq::<char>::empty() =~= segs(x).last());
        assert(segs(x).drop_last() + seq![segs(x).last()] + seq![Seq::<char>::empty()] =~= segs(x)
            + seq![Seq::<char>::empty()]);
    } else {
        assert(single.drop_first() =~= Seq::<char>::empty());
        assert(segs(single) == seq![seq![c] + segs(Seq::<char>::empty())[0]] + segs(
            Seq::<char>::empty(),
        ).drop_first());
        assert(segs(single).first() =~= seq![c]);
        assert(segs(single).drop_first() =~= Seq::<Seq<char>>::empty());
        assert(segs(x).last() + segs(single).first() =~= segs(x).last().push(c));
        assert(segs(x).drop_last() + seq![segs(x).last().push(c)] + Seq::<Seq<char>>::empty()
            =~= segs(x).drop_last().push(segs(x).last().push(c)));
    }
}

/// A text without newlines is one segment.
proof fn lemma_segs_no_nl(l: Seq<char>)
    requires
        no_nl(l),
    ensures
        segs(l) == seq![l],
    decreases l.len(),
{
    if l.len() == 0 {
        assert(segs(l) =~~= seq![l]);
    } else {
        assert(l[0] != '\n');
        lemma_segs_no_nl(l.drop_first());
        assert(segs(l) == seq![seq![l[0]] + segs(l.drop_first())[0]] + segs(
            l.drop_first(),
        ).drop_first());
        assert(seq![l[0]] + l.drop_first() =~= l);
        assert(segs(l.drop_first()).drop_first() =~= Seq::<Seq<char>>::empty());
        assert(segs(l) =~~= seq![l]);
    }
}

/// Segments carry no newline, and no carriage return when the text has
/// none.
proof fn lemma_segs_chars(s: Seq<char>)
    ensures
        forall|i: int| 0 <= i < segs(s).len() ==> no_nl(#[trigger] segs(s)[i]),
        no_cr(s) ==> forall|i: int| 0 <= i < segs(s).len() ==> no_cr(#[trigger] segs(s)[i]),
    decreases s.len(),
{
    if s.len() == 0 {
    } else if s[0] == '\n' {
        lemma_segs_chars(s.drop_first());
        assert(segs(s) == seq![Seq::<char>::empty()] + segs(s.drop_first()));
        assert forall|i: int| 0 <= i < segs(s).len() implies no_nl(#[trigger] segs(s)[i]) by {
            if i > 0 {
                assert(segs(s)[i] == segs(s.drop_first())[i - 1]);
            }
        }
        if no_cr(s) {
            assert(no_cr(s.drop_first()));
            assert forall|i: int| 0 <= i < segs(s).len() implies no_cr(#[trigger] segs(s)[i]) by {
                if i > 0 {
                    assert(segs(s)[i] == segs(s.drop_first())[i - 1]);
                }
            }
        }
    } else {
        lemma_segs_chars(s.drop_first());
        let r = segs(s.drop_first());
        crate::text::lemma_split_len(s.drop_first(), '\n');
        assert(segs(s) == seq![seq![s[0]] + r[0]] + r.drop_first());
        assert forall|i: int| 0 <= i < segs(s).len() implies no_nl(#[trigger] segs(s)[i]) by {
            if i == 0 {
                assert(segs(s)[0] == seq![s[0]] + r[0]);
                assert(no_nl(r[0]));
            } else {
                assert(segs(s)[i] == r[i]);
            }
        }
        if no_cr(s) {
            assert(no_cr(s.drop_first()));
            assert forall|i: int| 0 <= i < segs(s).len() implies no_cr(#[trigger] segs(s)[i]) by {
                if i == 0 {
                    assert(segs(s)[0] == seq![s[0]] + r[0]);
                    assert(no_cr(r[0]));
                    assert(s[0] != '\r');
                } else {
                    assert(segs(s)[i] == r[i]);
                }
            }
        }
    }
}

/// Joining the segments of a text restores it, with one final newline.
proof fn lemma_join_of_segs(x: Seq<char>)
    ensures
        join_lines(segs(x)) == x + seq!['\n'],
    decreases x.len(),
{
    crate::text::lemma_split_len(x, '\n');
    if x.len() == 0 {
        assert(segs(x) =~= seq![Seq::<char>::empty()]);
        assert(segs(x).drop_first() =~= Seq::<Seq<char>>::empty());
        assert(join_lines(segs(x)) == Seq::<char>::empty() + seq!['\n'] + join_lines(
            Seq::<Seq<char>>::empty(),
        ));
        assert(Seq::<char>::empty() + seq!['\n'] + Seq::<char>::empty() =~= x + seq!['\n']);
    } else if x[0] == '\n' {
        lemma_join_of_segs(x.drop_first());
        assert(segs(x) == seq![Seq::<char>::empty()] + segs(x.drop_first()));
        assert(segs(x).first() == Seq::<char>::empty());
        assert(segs(x).drop_first() =~= segs(x.drop_first()));
        assert(join_lines(segs(x)) == Seq::<char>::empty() + seq!['\n'] + join_lines(
            segs(x.drop_first()),
        ));
        assert(Seq::<char>::empty() + seq!['\n'] + (x.drop_first() + seq!['\n']) =~= x + seq![
            '\n',
        ]);
    } else {
        lemma_join_of_segs(x.drop_first());
        let r = segs(x.drop_first());
        crate::text::lemma_split_len(x.drop_first(), '\n');
        assert(segs(x) == seq![seq![x[0]] + r[0]] + r.drop_first());
        assert(segs(x).first() == seq![x[0]] + r[0]);
        assert(segs(x).drop_first() =~= r.drop_first());
        assert(join_lines(segs(x)) == (seq![x[0]] + r[0]) + seq!['\n'] + join_lines(
            r.drop_first(),
        ));
        assert(join_lines(r) == r.first() + seq!['\n'] + join_lines(r.drop_first()));
        assert((seq![x[0]] + r[0]) + seq!['\n'] + join_lines(r.drop_first()) =~= seq![x[0]] + (
        r[0] + seq!['\n'] + join_lines(r.drop_first())));
        assert(seq![x[0]] + (x.drop_first() + seq!['\n']) =~= x + seq!['\n']);
    }
}

/// The segments of a joined line sequence are those lines, plus the empty
/// segment after the final newline.
proof fn lemma_segs_of_join(ls: Seq<Seq<char>>)
    requires
        forall|i: int| 0 <= i < ls.len() ==> no_nl(#[trigger] ls[i]),
    ensures
        segs(join_lines(ls)) == ls + seq![Seq::<char>::empty()],
    decreases ls.len(),
{
    if ls.len() == 0 {
        assert(join_lines(ls) == Seq::<char>::empty());
        assert(segs(join_lines(ls)) =~= Seq::<Seq<char>>::empty() + seq![Seq::<char>::empty()]);
    } else {
        lemma_segs_of_join(ls.drop_first());
        assert(join_lines(ls) == ls.first() + seq!['\n'] + join_lines(ls.drop_first()));
        lemma_segs_nl_concat(ls.first(), join_lines(ls.drop_first()));
        assert(no_nl(ls[0]));
        lemma_segs_no_nl(ls.first());
        assert(seq![ls.first()] + (ls.drop_first() + seq![Seq::<char>::empty()]) =~= ls + seq![
            Seq::<char>::empty(),
        ]);
    }
}

// ------------------------------------------------------------------
// Strip-pass lemmas
// ------------------------------------------------------------------

proof fn lemma_contains_lift(ls: Seq<Seq<char>>, x: Seq<char>)
    requires
        ls.len() > 0,
        ls.drop_first().contains(x),
    ensures
        ls.contains(x),
{
    let j = choose|j: int| 0 <= j < ls.drop_first().len() && ls.drop_first()[j] == x;
    assert(ls[j + 1] == x);
}

/// The strip pass distributes over concatenation, threading the region
/// state through.
proof fn lemma_strip_concat(a: Seq<Seq<char>>, b: Seq<Seq<char>>, st: bool)
    ensures
        strip_lines(a + b, st) == strip_lines(a, st) + strip_lines(b, strip_state(a, st)),
        strip_state(a + b, st) == strip_state(b, strip_state(a, st)),
    decreases a.len(),
{
    if a.len() == 0 {
        assert(a + b =~= b);
        assert(Seq::<Seq<char>>::empty() + strip_lines(b, st) =~= strip_lines(b, st));
    } else {
        assert((a + b).first() == a.first());
        assert((a + b).drop_first() =~= a.drop_first() + b);
        lemma_strip_concat(a.drop_first(), b, st);
        lemma_strip_concat(a.drop_first(), b, true);
        lemma_strip_concat(a.drop_first(), b, false);
        if !is_start_line(a.first()) && !is_end_line(a.first()) && !st {
            assert(seq![a.first()] + (strip_lines(a.drop_first(), false) + strip_lines(
                b,
                strip_state(a.drop_first(), false),
            )) =~= (seq![a.first()] + strip_lines(a.drop_first(), false)) + strip_lines(
                b,
                strip_state(a.drop_first(), false),
            ));
        }
    }
}

/// A pass over marker-free lines keeps every line and stays outside a
/// region.
proof fn lemma_strip_no_marker(ls: Seq<Seq<char>>)
    requires
        no_marker_lines(ls),
    ensures
        strip_lines(ls, false) == ls,
        strip_state(ls, false) == false,
    decreases ls.len(),
{
    if ls.len() > 0 {
        assert(not_marker(ls[0]));
        assert(no_marker_lines(ls.drop_first())) by {
            assert(forall|i: int|
                0 <= i < ls.drop_first().len() ==> ls.drop_first()[i] == ls[i + 1]);
        }
        lemma_strip_no_marker(ls.drop_first());
        assert(seq![ls.first()] + ls.drop_first() =~= ls);
    }
}

/// What a strip pass emits is marker-free, and drawn from its input.
proof fn lemma_strip_output(ls: Seq<Seq<char>>, st: bool)
    ensures
        no_marker_lines(strip_lines(ls, st)),
        forall|i: int|
            0 <= i < strip_lines(ls, st).len() ==> ls.contains(#[trigger] strip_lines(ls, st)[i]),
    decreases ls.len(),
{
    if ls.len() > 0 {
        lemma_strip_output(ls.drop_first(), true);
        lemma_strip_output(ls.drop_first(), false);
        let out = strip_lines(ls, st);
        if !is_start_line(ls.first()) && !is_end_line(ls.first()) && !st {
            let rec = strip_lines(ls.drop_first(), false);
            assert(out == seq![ls.first()] + rec);
            assert forall|i: int| 0 <= i < out.len() implies ls.contains(#[trigger] out[i]) by {
                if i == 0 {
                    assert(out[0] == ls[0]);
                } else {
                    assert(out[i] == rec[i - 1]);
                    lemma_contains_lift(ls, rec[i - 1]);
                }
            }
            assert(no_marker_lines(out)) by {
                assert(forall|i: int| 1 <= i < out.len() ==> out[i] == rec[i - 1]);
            }
        } else {
            let nst = if is_start_line(ls.first()) {
                true
            } else if is_end_line(ls.first()) {
                false
            } else {
                st
            };
            let rec = strip_lines(ls.drop_first(), nst);
            assert(out == rec);
            assert forall|i: int| 0 <= i < out.len() implies ls.contains(#[trigger] out[i]) by {
                lemma_contains_lift(ls, out[i]);
            }
        }
    }
}

/// Inside a region, marker-free lines vanish until the end marker closes
/// it.
proof fn lemma_strip_region(mid: Seq<Seq<char>>, e: Seq<char>)
    requires
        no_marker_lines(mid),
        is_end_line(e),
        !is_start_line(e),
    ensures
        strip_lines(mid.push(e), true) == Seq::<Seq<char>>::empty(),
        strip_state(mid.push(e), true) == false,
    decreases mid.len(),
{
    if mid.len() == 0 {
        assert(mid.push(e).first() == e);
        assert(mid.push(e).drop_first() =~= Seq::<Seq<char>>::empty());
        assert(strip_lines(Seq::<Seq<char>>::empty(), false) == Seq::<Seq<char>>::empty());
        assert(strip_state(Seq::<Seq<char>>::empty(), false) == false);
        assert(strip_lines(mid.push(e), true) == strip_lines(mid.push(e).drop_first(), false));
        assert(strip_state(mid.push(e), true) == strip_state(mid.push(e).drop_first(), false));
    } else {
        assert(mid.push(e).first() == mid[0]);
        assert(not_marker(mid[0]));
        assert(mid.push(e).drop_first() =~= mid.drop_first().push(e));
        assert(no_marker_lines(mid.drop_first())) by {
            assert(forall|i: int|
                0 <= i < mid.drop_first().len() ==> mid.drop_first()[i] == mid[i + 1]);
        }
        lemma_strip_region(mid.drop_first(), e);
    }
}

// ------------------------------------------------------------------
// Marker literal facts
// ------------------------------------------------------------------

/// A line with no whitespace at either end trims to itself.
proof fn lemma_trim_noop(l: Seq<char>)
    requires
        l.len() > 0,
        !is_ws_char(l[0]),
        !is_ws_char(l.last()),
    ensures
        spec_trim(l) == l,
{
    lemma_trim_start_noop(l);
}

/// The fixed lines of the rendered section, held against the markers.
proof fn lemma_marker_facts()
    ensures
        start_marker_spec().len() == 32,
        end_marker_spec().len() == 30,
        start_marker_spec()[0] == '#',
        start_marker_spec()[2] == '>',
        end_marker_spec()[2] == '<',
        is_start_line(start_marker_spec()),
        is_end_line(end_marker_spec()),
        !is_end_line(start_marker_spec()),
        !is_start_line(end_marker_spec()),
        not_marker(disclaimer_spec()),
        not_marker(Seq::<char>::empty()),
        strip_cr(start_marker_spec()) == start_marker_spec(),
        strip_cr(end_marker_spec()) == end_marker_spec(),
{
    reveal_strlit("# >>> hosts_updater_rs START >>>");
    reveal_strlit("# <<< hosts_updater_rs END <<<");
    reveal_strlit("# this region is auto-managed; do not edit by hand");
    let s = start_marker_spec();
    let e = end_marker_spec();
    let d = disclaimer_spec();
    lemma_trim_noop(s);
    lemma_trim_noop(e);
    lemma_trim_noop(d);
    assert(spec_trim(Seq::<char>::empty()) == Seq::<char>::empty());
}

/// Whatever the timestamp, its comment line is no marker line.
proof fn lemma_ts_line_not_marker(ts: Seq<char>)
    ensures
        not_marker(last_updated_prefix_spec() + ts),
{
    reveal_strlit("# last updated: ");
    reveal_strlit("# >>> hosts_updater_rs START >>>");
    reveal_strlit("# <<< hosts_updater_rs END <<<");
    let l = last_updated_prefix_spec() + ts;
    assert(l[0] == '#');
    assert(l[2] == 'l');
    lemma_line_not_marker_by_index(l, start_marker_spec(), 2);
    lemma_line_not_marker_by_index(l, end_marker_spec(), 2);
}

/// Whatever the origin, its provenance line is no marker line.
proof fn lemma_src_line_not_marker(origin: Seq<char>)
    ensures
        not_marker(source_prefix_spec() + origin),
{
    reveal_strlit("# Source: ");
    reveal_strlit("# >>> hosts_updater_rs START >>>");
    reveal_strlit("# <<< hosts_updater_rs END <<<");
    let l = source_prefix_spec() + origin;
    assert(l[0] == '#');
    assert(l[2] == 'S');
    lemma_line_not_marker_by_index(l, start_marker_spec(), 2);
    lemma_line_not_marker_by_index(l, end_marker_spec(), 2);
}

/// Stripping a trailing carriage return cannot make or unmake a marker
/// line.
proof fn lemma_not_marker_strip_cr(l: Seq<char>)
    ensures
        not_marker(strip_cr(l)) == not_marker(l),
        is_start_line(strip_cr(l)) == is_start_line(l),
        is_end_line(strip_cr(l)) == is_end_line(l),
{
    lemma_trim_strip_cr(l);
}

// ------------------------------------------------------------------
// Character bookkeeping across lines and joins
// ------------------------------------------------------------------

proof fn lemma_no_nl_concat(a: Seq<char>, b: Seq<char>)
    requires
        no_nl(a),
        no_nl(b),
    ensures
        no_nl(a + b),
{
    assert forall|i: int| 0 <= i < (a + b).len() implies (a + b)[i] != '\n' by {
        if i < a.len() {
            assert((a + b)[i] == a[i]);
        } else {
            assert((a + b)[i] == b[i - a.len()]);
        }
    }
}

proof fn lemma_strip_cr_chars(l: Seq<char>)
    ensures
        no_nl(l) ==> no_nl(strip_cr(l)),
        no_cr(l) ==> strip_cr(l) == l,
{
    if l.len() > 0 && l.last() == '\r' {
        assert(forall|i: int| 0 <= i < l.drop_last().len() ==> l.drop_last()[i] == l[i]);
    }
}

/// Lines carry no newline, and no carriage return when the text has
/// none.
proof fn lemma_lines_elements(s: Seq<char>)
    ensures
        forall|i: int| 0 <= i < spec_lines(s).len() ==> no_nl(#[trigger] spec_lines(s)[i]),
        no_cr(s) ==> forall|i: int|
            0 <= i < spec_lines(s).len() ==> no_cr(#[trigger] spec_lines(s)[i]),
{
    lemma_lines_as_mapcr(s);
    lemma_segs_chars(s);
    let g = segs(s);
    let ls = spec_lines(s);
    assert forall|i: int| 0 <= i < ls.len() implies no_nl(#[trigger] ls[i]) by {
        if g.last().len() == 0 || i < ls.len() - 1 {
            assert(ls[i] == strip_cr(g.drop_last()[i]));
            assert(g.drop_last()[i] == g[i]);
            lemma_strip_cr_chars(g[i]);
        } else {
            assert(ls[i] == g.last());
        }
    }
    if no_cr(s) {
        assert forall|i: int| 0 <= i < ls.len() implies no_cr(#[trigger] ls[i]) by {
            if g.last().len() == 0 || i < ls.len() - 1 {
                assert(ls[i] == strip_cr(g.drop_last()[i]));
                assert(g.drop_last()[i] == g[i]);
                lemma_strip_cr_chars(g[i]);
            } else {
                assert(ls[i] == g.last());
            }
        }
    }
}

/// Marker-free lines mean marker-free segments.
proof fn lemma_lines_marker_to_segs(s: Seq<char>)
    requires
        no_marker_lines(spec_lines(s)),
    ensures
        segs_marker_free(s),
{
    lemma_lines_as_mapcr(s);
    lemma_marker_facts();
    let g = segs(s);
    let ls = spec_lines(s);
    assert forall|i: int| 0 <= i < g.len() implies not_marker(g[i]) by {
        if i < g.len() - 1 {
            assert(ls[i] == strip_cr(g.drop_last()[i]));
            assert(g.drop_last()[i] == g[i]);
            lemma_not_marker_strip_cr(g[i]);
            assert(not_marker(ls[i]));
        } else {
            if g.last().len() == 0 {
                assert(spec_trim(g[i]) == Seq::<char>::empty());
                reveal_strlit("# >>> hosts_updater_rs START >>>");
                reveal_strlit("# <<< hosts_updater_rs END <<<");
            } else {
                assert(ls.last() == g.last());
                assert(not_marker(ls[ls.len() - 1]));
            }
        }
    }
}

/// Trailing-whitespace trimming cannot create a marker line.
proof fn lemma_trim_end_marker_free(s: Seq<char>)
    requires
        segs_marker_free(s),
    ensures
        segs_marker_free(spec_trim_end(s)),
    decreases s.len(),
{
    if s.len() > 0 && is_ws_char(s.last()) {
        let s0 = s.drop_last();
        let c = s.last();
        assert(s0.push(c) =~= s);
        lemma_segs_push_char(s0, c);
        crate::text::lemma_split_len(s0, '\n');
        if c == '\n' {
            assert(segs(s) == segs(s0) + seq![Seq::<char>::empty()]);
            assert forall|i: int| 0 <= i < segs(s0).len() implies not_marker(segs(s0)[i]) by {
                assert(segs(s0)[i] == segs(s)[i]);
            }
        } else {
            assert(segs(s) == segs(s0).drop_last().push(segs(s0).last().push(c)));
            assert forall|i: int| 0 <= i < segs(s0).len() implies not_marker(segs(s0)[i]) by {
                if i < segs(s0).len() - 1 {
                    assert(segs(s0)[i] == segs(s0).drop_last()[i]);
                    assert(segs(s)[i] == segs(s0).drop_last()[i]);
                    assert(not_marker(segs(s)[i]));
                } else {
                    assert(segs(s)[segs(s).len() - 1] == segs(s0).last().push(c));
                    assert(not_marker(segs(s0).last().push(c)));
                    lemma_trim_push_ws(segs(s0).last(), c);
                }
            }
        }
        lemma_trim_end_marker_free(s0);
    }
}

/// A join of carriage-return-free lines is carriage-return free.
proof fn lemma_join_no_cr(ls: Seq<Seq<char>>)
    requires
        forall|i: int| 0 <= i < ls.len() ==> no_cr(#[trigger] ls[i]),
    ensures
        no_cr(join_lines(ls)),
    decreases ls.len(),
{
    if ls.len() > 0 {
        assert(forall|i: int| 0 <= i < ls.drop_first().len() ==> ls.drop_first()[i] == ls[i + 1]);
        lemma_join_no_cr(ls.drop_first());
        let j = join_lines(ls);
        let a = ls.first();
        let rest = join_lines(ls.drop_first());
        assert(j == a + seq!['\n'] + rest);
        assert forall|i: int| 0 <= i < j.len() implies j[i] != '\r' by {
            if i < a.len() {
                assert(j[i] == a[i]);
                assert(no_cr(ls[0]));
            } else if i == a.len() {
                assert(j[i] == '\n');
            } else {
                assert(j[i] == rest[i - a.len() - 1]);
            }
        }
    }
}

// ------------------------------------------------------------------
// The line structure of a rendered section
// ------------------------------------------------------------------

/// The line segments the document blocks contribute to the section.
pub open spec fn blocks_segs(docs: Seq<(Seq<char>, Seq<char>)>) -> Seq<Seq<char>>
    decreases docs.len(),
{
    if docs.len() == 0 {
        Seq::<Seq<char>>::empty()
    } else {
        seq![source_prefix_spec() + docs.first().0] + segs(spec_trim(docs.first().1)) + seq![
            Seq::<char>::empty(),
        ] + blocks_segs(docs.drop_first())
    }
}

proof fn lemma_blocks_tail_segs(docs: Seq<(Seq<char>, Seq<char>)>)
    requires
        forall|i: int| 0 <= i < docs.len() ==> no_nl(#[trigger] docs[i].0),
    ensures
        segs(doc_blocks(docs) + end_marker_spec() + seq!['\n']) == blocks_segs(docs) + seq![
            end_marker_spec(),
            Seq::<char>::empty(),
        ],
    decreases docs.len(),
{
    reveal_strlit("# <<< hosts_updater_rs END <<<");
    reveal_strlit("# Source: ");
    let e = end_marker_spec();
    if docs.len() == 0 {
        assert(doc_blocks(docs) + e + seq!['\n'] =~= e + seq!['\n'] + Seq::<char>::empty());
        lemma_segs_nl_concat(e, Seq::<char>::empty());
        assert(no_nl(e));
        lemma_segs_no_nl(e);
        assert(segs(Seq::<char>::empty()) =~= seq![Seq::<char>::empty()]);
        assert(seq![e] + seq![Seq::<char>::empty()] =~~= blocks_segs(docs) + seq![
            e,
            Seq::<char>::empty(),
        ]);
    } else {
        let d = docs.first();
        let src_line = source_prefix_spec() + d.0;
        let body = spec_trim(d.1);
        let tail = doc_blocks(docs.drop_first()) + e + seq!['\n'];
        assert(forall|i: int|
            0 <= i < docs.drop_first().len() ==> docs.drop_first()[i] == docs[i + 1]);
        lemma_blocks_tail_segs(docs.drop_first());
        let z = Seq::<char>::empty() + seq!['\n'] + tail;
        let y = body + seq!['\n'] + z;
        assert(doc_blocks(docs) == doc_block(d.0, d.1) + doc_blocks(docs.drop_first()));
        assert(doc_blocks(docs) + e + seq!['\n'] =~= src_line + seq!['\n'] + y);
        lemma_segs_nl_concat(src_line, y);
        lemma_segs_nl_concat(body, z);
        lemma_segs_nl_concat(Seq::<char>::empty(), tail);
        assert(no_nl(source_prefix_spec()));
        assert(no_nl(d.0));
        lemma_no_nl_concat(source_prefix_spec(), d.0);
        lemma_segs_no_nl(src_line);
        assert(segs(Seq::<char>::empty()) =~= seq![Seq::<char>::empty()]);
        assert(segs(doc_blocks(docs) + e + seq!['\n']) == seq![src_line] + (segs(body) + (seq![
            Seq::<char>::empty(),
        ] + (blocks_segs(docs.drop_first()) + seq![e, Seq::<char>::empty()]))));
        assert(seq![src_line] + (segs(body) + (seq![Seq::<char>::empty()] + (blocks_segs(
            docs.drop_first(),
        ) + seq![e, Seq::<char>::empty()]))) =~= blocks_segs(docs) + seq![
            e,
            Seq::<char>::empty(),
        ]);
    }
}

/// The full segment structure of a rendered section.
proof fn lemma_render_segs(docs: Seq<(Seq<char>, Seq<char>)>, ts: Seq<char>)
    requires
        ts_ok(ts),
        forall|i: int| 0 <= i < docs.len() ==> no_nl(#[trigger] docs[i].0),
    ensures
        segs(spec_render(docs, ts)) == seq![
            start_marker_spec(),
            disclaimer_spec(),
            last_updated_prefix_spec() + ts,
            Seq::<char>::empty(),
        ] + blocks_segs(docs) + seq![end_marker_spec(), Seq::<char>::empty()],
{
    reveal_strlit("# >>> hosts_updater_rs START >>>");
    reveal_strlit("# this region is auto-managed; do not edit by hand");
    reveal_strlit("# last updated: ");
    let st = start_marker_spec();
    let di = disclaimer_spec();
    let lu = last_updated_prefix_spec() + ts;
    let tail = doc_blocks(docs) + end_marker_spec() + seq!['\n'];
    lemma_blocks_tail_segs(docs);
    let z = Seq::<char>::empty() + seq!['\n'] + tail;
    let y3 = lu + seq!['\n'] + z;
    let y2 = di + seq!['\n'] + y3;
    assert(spec_render(docs, ts) =~= st + seq!['\n'] + y2);
    lemma_segs_nl_concat(st, y2);
    lemma_segs_nl_concat(di, y3);
    lemma_segs_nl_concat(lu, z);
    lemma_segs_nl_concat(Seq::<char>::empty(), tail);
    assert(no_nl(st));
    assert(no_nl(di));
    assert(no_nl(last_updated_prefix_spec()));
    lemma_no_nl_concat(last_updated_prefix_spec(), ts);
    lemma_segs_no_nl(st);
    lemma_segs_no_nl(di);
    lemma_segs_no_nl(lu);
    assert(segs(Seq::<char>::empty()) =~= seq![Seq::<char>::empty()]);
    assert(segs(spec_render(docs, ts)) == seq![st] + (seq![di] + (seq![lu] + (seq![
        Seq::<char>::empty(),
    ] + (blocks_segs(docs) + seq![end_marker_spec(), Seq::<char>::empty()])))));
    assert(seq![st] + (seq![di] + (seq![lu] + (seq![Seq::<char>::empty()] + (blocks_segs(docs)
        + seq![end_marker_spec(), Seq::<char>::empty()])))) =~= seq![
        st,
        di,
        lu,
        Seq::<char>::empty(),
    ] + blocks_segs(docs) + seq![end_marker_spec(), Seq::<char>::empty()]);
}

proof fn lemma_blocks_segs_markers(docs: Seq<(Seq<char>, Seq<char>)>)
    requires
        docs_ok(docs),
    ensures
        no_marker_lines(blocks_segs(docs)),
    decreases docs.len(),
{
    lemma_marker_facts();
    if docs.len() > 0 {
        let d = docs.first();
        assert(doc_ok(docs[0]));
        assert(forall|i: int|
            0 <= i < docs.drop_first().len() ==> docs.drop_first()[i] == docs[i + 1]);
        lemma_blocks_segs_markers(docs.drop_first());
        lemma_src_line_not_marker(d.0);
        let a = seq![source_prefix_spec() + d.0];
        let b = segs(spec_trim(d.1));
        let c = seq![Seq::<char>::empty()];
        let r = blocks_segs(docs.drop_first());
        assert(blocks_segs(docs) == a + b + c + r);
        assert forall|i: int| 0 <= i < blocks_segs(docs).len() implies not_marker(
            blocks_segs(docs)[i],
        ) by {
            if i < 1 {
                assert(blocks_segs(docs)[i] == source_prefix_spec() + d.0);
            } else if i < 1 + b.len() {
                assert(blocks_segs(docs)[i] == b[i - 1]);
                assert(not_marker(b[i - 1]));
            } else if i < 2 + b.len() {
                assert(blocks_segs(docs)[i] == Seq::<char>::empty());
            } else {
                assert(blocks_segs(docs)[i] == r[i - 2 - b.len()]);
            }
        }
    }
}

// ------------------------------------------------------------------
// Marker-line counting
// ------------------------------------------------------------------

/// Number of start-marker lines.
pub open spec fn count_start_lines(ls: Seq<Seq<char>>) -> int
    decreases ls.len(),
{
    if ls.len() == 0 {
        0
    } else {
        (if is_start_line(ls.first()) {
            1 as int
        } else {
            0 as int
        }) + count_start_lines(ls.drop_first())
    }
}

/// Number of end-marker lines.
pub open spec fn count_end_lines(ls: Seq<Seq<char>>) -> int
    decreases ls.len(),
{
    if ls.len() == 0 {
        0
    } else {
        (if is_end_line(ls.first()) {
            1 as int
        } else {
            0 as int
        }) + count_end_lines(ls.drop_first())
    }
}

proof fn lemma_count_concat(a: Seq<Seq<char>>, b: Seq<Seq<char>>)
    ensures
        count_start_lines(a + b) == count_start_lines(a) + count_start_lines(b),
        count_end_lines(a + b) == count_end_lines(a) + count_end_lines(b),
    decreases a.len(),
{
    if a.len() == 0 {
        assert(a + b =~= b);
    } else {
        assert((a + b).first() == a.first());
        assert((a + b).drop_first() =~= a.drop_first() + b);
        lemma_count_concat(a.drop_first(), b);
    }
}

proof fn lemma_count_marker_free(ls: Seq<Seq<char>>)
    requires
        no_marker_lines(ls),
    ensures
        count_start_lines(ls) == 0,
        count_end_lines(ls) == 0,
    decreases ls.len(),
{
    if ls.len() > 0 {
        assert(not_marker(ls[0]));
        assert(forall|i: int| 0 <= i < ls.drop_first().len() ==> ls.drop_first()[i] == ls[i + 1]);
        lemma_count_marker_free(ls.drop_first());
    }
}

/// The lines of a rendered section: it opens with the start marker,
/// closes with the end marker, holds no other marker line, and a strip
/// pass removes it whole.
proof fn lemma_render_lines_facts(docs: Seq<(Seq<char>, Seq<char>)>, ts: Seq<char>)
    requires
        docs_ok(docs),
        ts_ok(ts),
    ensures
        segs(spec_render(docs, ts)).last() == Seq::<char>::empty(),
        spec_lines(spec_render(docs, ts)).len() > 0,
        spec_lines(spec_render(docs, ts))[0] == start_marker_spec(),
        spec_has_start(spec_lines(spec_render(docs, ts))),
        strip_lines(spec_lines(spec_render(docs, ts)), false) == Seq::<Seq<char>>::empty(),
        strip_state(spec_lines(spec_render(docs, ts)), false) == false,
        count_start_lines(spec_lines(spec_render(docs, ts))) == 1,
        count_end_lines(spec_lines(spec_render(docs, ts))) == 1,
{
    let s = spec_render(docs, ts);
    assert forall|i: int| 0 <= i < docs.len() implies no_nl(#[trigger] docs[i].0) by {
        assert(doc_ok(docs[i]));
    }
    lemma_render_segs(docs, ts);
    lemma_marker_facts();
    let st = start_marker_spec();
    let e = end_marker_spec();
    let bl = blocks_segs(docs);
    let g = segs(s);
    assert(g.last() == Seq::<char>::empty());
    lemma_lines_as_mapcr(s);
    let ls = spec_lines(s);
    assert(ls == mapcr(g.drop_last()));
    // the middle lines, between the two marker lines
    let midraw = seq![disclaimer_spec(), last_updated_prefix_spec() + ts, Seq::<char>::empty()]
        + bl;
    let mid = mapcr(midraw);
    assert(g.drop_last() =~= seq![st] + midraw + seq![e]);
    assert(ls =~= seq![st] + mid.push(e)) by {
        assert(ls.len() == 1 + midraw.len() + 1);
        assert(ls[0] == strip_cr(st));
        assert forall|i: int| 1 <= i < ls.len() - 1 implies ls[i] == mid[i - 1] by {
            assert(g.drop_last()[i] == midraw[i - 1]);
            assert(ls[i] == strip_cr(midraw[i - 1]));
        }
        assert(g.drop_last()[ls.len() - 1] == e);
        assert(ls[ls.len() - 1] == strip_cr(e));
    }
    assert(ls[0] == st);
    assert(spec_has_start(ls)) by {
        assert(is_start_line(ls[0]));
    }
    lemma_blocks_segs_markers(docs);
    lemma_ts_line_not_marker(ts);
    assert(no_marker_lines(mid)) by {
        assert forall|i: int| 0 <= i < mid.len() implies not_marker(mid[i]) by {
            assert(mid[i] == strip_cr(midraw[i]));
            lemma_not_marker_strip_cr(midraw[i]);
            if i < 3 {
                assert(not_marker(midraw[i]));
            } else {
                assert(midraw[i] == bl[i - 3]);
                assert(not_marker(bl[i - 3]));
            }
        }
    }
    lemma_strip_region(mid, e);
    assert(ls.first() == st);
    assert(ls.drop_first() =~= mid.push(e));
    assert(strip_lines(ls, false) == strip_lines(ls.drop_first(), true));
    assert(strip_state(ls, false) == strip_state(ls.drop_first(), true));
    // counts
    assert(ls =~= seq![st] + (mid + seq![e]));
    lemma_count_concat(seq![st], mid + seq![e]);
    lemma_count_concat(mid, seq![e]);
    lemma_count_marker_free(mid);
    assert(seq![st].drop_first() =~= Seq::<Seq<char>>::empty());
    assert(count_start_lines(Seq::<Seq<char>>::empty()) == 0);
    assert(count_end_lines(Seq::<Seq<char>>::empty()) == 0);
    assert(seq![st].first() == st);
    assert(count_start_lines(seq![st]) == 1);
    assert(count_end_lines(seq![st]) == 0);
    assert(seq![e].drop_first() =~= Seq::<Seq<char>>::empty());
    assert(count_start_lines(seq![e]) == 0);
    assert(count_end_lines(seq![e]) == 1);
}

/// Lines of user content, the separating blank line, then the section's
/// lines.
proof fn lemma_compose_lines(t: Seq<char>, docs: Seq<(Seq<char>, Seq<char>)>, ts: Seq<char>)
    requires
        docs_ok(docs),
        ts_ok(ts),
    ensures
        spec_lines(t + seq!['\n'] + seq!['\n'] + spec_render(docs, ts)) == mapcr(segs(t)) + seq![
            Seq::<char>::empty(),
        ] + spec_lines(spec_render(docs, ts)),
{
    let s = spec_render(docs, ts);
    let o = t + seq!['\n'] + seq!['\n'] + s;
    let z = Seq::<char>::empty() + seq!['\n'] + s;
    assert(o =~= t + seq!['\n'] + z);
    lemma_segs_nl_concat(t, z);
    lemma_segs_nl_concat(Seq::<char>::empty(), s);
    assert(segs(Seq::<char>::empty()) =~= seq![Seq::<char>::empty()]);
    lemma_render_lines_facts(docs, ts);
    crate::text::lemma_split_len(t, '\n');
    crate::text::lemma_split_len(s, '\n');
    let g = segs(o);
    assert(g =~= segs(t) + seq![Seq::<char>::empty()] + segs(s));
    assert(g.last() == segs(s).last());
    lemma_lines_as_mapcr(o);
    lemma_lines_as_mapcr(s);
    assert(spec_lines(o) == mapcr(g.drop_last()));
    assert(spec_lines(s) == mapcr(segs(s).drop_last()));
    assert(g.drop_last() =~= segs(t) + seq![Seq::<char>::empty()] + segs(s).drop_last());
    assert(spec_lines(o) =~= mapcr(segs(t)) + seq![Seq::<char>::empty()] + spec_lines(s)) by {
        assert forall|i: int| 0 <= i < g.drop_last().len() implies spec_lines(o)[i] == strip_cr(
            g.drop_last()[i],
        ) by {}
        assert(strip_cr(Seq::<char>::empty()) == Seq::<char>::empty());
        assert forall|i: int| 0 <= i < segs(t).len() implies spec_lines(o)[i] == mapcr(
            segs(t),
        )[i] by {
            assert(g.drop_last()[i] == segs(t)[i]);
        }
        assert(g.drop_last()[segs(t).len() as int] == Seq::<char>::empty());
        assert forall|i: int|
            segs(t).len() + 1 <= i < g.drop_last().len() implies spec_lines(o)[i] == spec_lines(
            s,
        )[i - segs(t).len() - 1] by {
            assert(g.drop_last()[i] == segs(s).drop_last()[i - segs(t).len() - 1]);
        }
    }
}

/// Stripping the output of a merge recovers exactly the user content the
/// merge was given.
proof fn lemma_strip_of_compose(t: Seq<char>, docs: Seq<(Seq<char>, Seq<char>)>, ts: Seq<char>)
    requires
        clean(t),
        docs_ok(docs),
        ts_ok(ts),
    ensures
        spec_strip(spec_render(docs, ts)) == Seq::<char>::empty(),
        t.len() > 0 ==> spec_strip(t + seq!['\n'] + seq!['\n'] + spec_render(docs, ts)) == t,
{
    let s = spec_render(docs, ts);
    lemma_render_lines_facts(docs, ts);
    lemma_marker_facts();
    assert(join_lines(Seq::<Seq<char>>::empty()) == Seq::<char>::empty());
    assert(spec_trim_end(Seq::<char>::empty()) == Seq::<char>::empty());
    assert(spec_strip(s) == Seq::<char>::empty());
    if t.len() > 0 {
        let o = t + seq!['\n'] + seq!['\n'] + s;
        lemma_compose_lines(t, docs, ts);
        let lo = spec_lines(o);
        crate::text::lemma_split_len(t, '\n');
        lemma_segs_chars(t);
        assert(mapcr(segs(t)) =~= segs(t)) by {
            assert forall|i: int| 0 <= i < segs(t).len() implies mapcr(segs(t))[i] == segs(
                t,
            )[i] by {
                lemma_strip_cr_chars(segs(t)[i]);
            }
        }
        let w = segs(t).len() as int + 1;
        assert(lo[w] == spec_lines(s)[0]);
        assert(is_start_line(lo[w]));
        assert(spec_has_start(lo));
        let b = seq![Seq::<char>::empty()] + spec_lines(s);
        assert(lo =~= segs(t) + b);
        lemma_strip_no_marker(segs(t));
        lemma_strip_concat(segs(t), b, false);
        assert(b.first() == Seq::<char>::empty());
        assert(b.drop_first() =~= spec_lines(s));
        assert(!is_start_line(b.first()) && !is_end_line(b.first()));
        assert(strip_lines(b, false) == seq![b.first()] + strip_lines(b.drop_first(), false));
        assert(strip_lines(b, false) =~= seq![Seq::<char>::empty()]);
        assert(strip_lines(lo, false) =~= segs(t) + seq![Seq::<char>::empty()]);
        assert(segs(t).push(Seq::<char>::empty()) =~= segs(t) + seq![Seq::<char>::empty()]);
        crate::hosts::lemma_join_lines_snoc(segs(t), Seq::<char>::empty());
        lemma_join_of_segs(t);
        assert(join_lines(segs(t) + seq![Seq::<char>::empty()]) =~= t.push('\n').push('\n'));
        lemma_trim_end_push_ws(t.push('\n'), '\n');
        lemma_trim_end_push_ws(t, '\n');
        assert(spec_strip(o) == t);
    }
}

/// After a strip and a trailing trim, what is left of any input is clean:
/// trimmed, marker-free, and carriage-return free when the input was.
proof fn lemma_merge_input_clean(content: Seq<char>)
    requires
        no_cr(content),
        spec_has_start(spec_lines(content)) || (forall|i: int|
            0 <= i < spec_lines(content).len() ==> !is_end_line(#[trigger] spec_lines(content)[i])),
    ensures
        clean(spec_trim_end(spec_strip(content))),
{
    let ls = spec_lines(content);
    lemma_lines_elements(content);
    if spec_has_start(ls) {
        let e = strip_lines(ls, false);
        lemma_strip_output(ls, false);
        assert forall|i: int| 0 <= i < e.len() implies no_nl(#[trigger] e[i]) && no_cr(e[i]) by {
            assert(ls.contains(e[i]));
            let j = choose|j: int| 0 <= j < ls.len() && ls[j] == e[i];
            assert(no_nl(ls[j]));
            assert(no_cr(ls[j]));
        }
        let jn = join_lines(e);
        lemma_segs_of_join(e);
        lemma_join_no_cr(e);
        assert(spec_strip(content) == spec_trim_end(jn));
        lemma_trim_end_idempotent(jn);
        let t = spec_trim_end(spec_strip(content));
        assert(t == spec_trim_end(jn));
        lemma_trim_end_is_prefix(jn);
        assert(no_cr(t)) by {
            assert forall|i: int| 0 <= i < t.len() implies t[i] != '\r' by {
                assert(t[i] == jn[i]);
            }
        }
        lemma_marker_facts();
        assert(segs_marker_free(jn)) by {
            assert forall|i: int| 0 <= i < segs(jn).len() implies not_marker(segs(jn)[i]) by {
                if i < e.len() {
                    assert(segs(jn)[i] == e[i]);
                } else {
                    assert(segs(jn)[i] == Seq::<char>::empty());
                }
            }
        }
        lemma_trim_end_marker_free(jn);
    } else {
        assert(no_marker_lines(ls)) by {
            assert forall|i: int| 0 <= i < ls.len() implies not_marker(ls[i]) by {
                assert(!is_start_line(ls[i]));
                assert(!is_end_line(ls[i]));
            }
        }
        assert(spec_strip(content) == content);
        let t = spec_trim_end(content);
        lemma_trim_end_is_prefix(content);
        assert(no_cr(t)) by {
            assert forall|i: int| 0 <= i < t.len() implies t[i] != '\r' by {
                assert(t[i] == content[i]);
            }
        }
        lemma_trim_end_idempotent(content);
        lemma_lines_marker_to_segs(content);
        lemma_trim_end_marker_free(content);
    }
}

// ------------------------------------------------------------------
// The laws of the merge orchestrator
// ------------------------------------------------------------------

/// Merging is a fixed point: merging the output of a merge again, with
/// the same documents and the same timestamp, reproduces it byte for
/// byte. The input may hold no carriage returns, and a stray end marker
/// is allowed only where a start marker also occurs; the documents and
/// the timestamp may not themselves forge marker lines.
pub proof fn lemma_merge_fixed_point(
    content: Seq<char>,
    docs: Seq<(Seq<char>, Seq<char>)>,
    ts: Seq<char>,
)
    requires
        no_cr(content),
        spec_has_start(spec_lines(content)) || (forall|i: int|
            0 <= i < spec_lines(content).len() ==> !is_end_line(#[trigger] spec_lines(content)[i])),
        docs_ok(docs),
        ts_ok(ts),
    ensures
        spec_merge(spec_merge(content, docs, ts), docs, ts) == spec_merge(content, docs, ts),
{
    lemma_merge_input_clean(content);
    let t = spec_trim_end(spec_strip(content));
    lemma_strip_of_compose(t, docs, ts);
    let o = spec_merge(content, docs, ts);
    assert(spec_trim_end(Seq::<char>::empty()) == Seq::<char>::empty());
    if t.len() == 0 {
        assert(o == spec_render(docs, ts));
        assert(spec_trim_end(spec_strip(o)) == Seq::<char>::empty());
    } else {
        assert(o == t + seq!['\n'] + seq!['\n'] + spec_render(docs, ts));
        assert(spec_strip(o) == t);
        assert(spec_trim_end(spec_strip(o)) == t);
    }
}

/// Merging preserves user content: for content without marker lines, the
/// merge output stripped of its managed region is exactly the content,
/// trimmed of trailing whitespace.
pub proof fn lemma_merge_preserves_content(
    content: Seq<char>,
    docs: Seq<(Seq<char>, Seq<char>)>,
    ts: Seq<char>,
)
    requires
        no_cr(content),
        no_marker_lines(spec_lines(content)),
        docs_ok(docs),
        ts_ok(ts),
    ensures
        spec_strip(spec_merge(content, docs, ts)) == spec_trim_end(content),
{
    let ls = spec_lines(content);
    assert(!spec_has_start(ls)) by {
        if spec_has_start(ls) {
            let i = choose|i: int| 0 <= i < ls.len() && is_start_line(ls[i]);
            assert(not_marker(ls[i]));
        }
    }
    assert(forall|i: int| 0 <= i < ls.len() ==> !is_end_line(#[trigger] ls[i])) by {
        assert(forall|i: int| 0 <= i < ls.len() ==> not_marker(#[trigger] ls[i]));
    }
    lemma_merge_input_clean(content);
    assert(spec_strip(content) == content);
    let t = spec_trim_end(content);
    lemma_strip_of_compose(t, docs, ts);
}

/// Merging twice leaves exactly one managed region: one start-marker
/// line and one end-marker line, never nested or duplicated, for any
/// starting content.
pub proof fn lemma_merge_single_region(
    content: Seq<char>,
    docs: Seq<(Seq<char>, Seq<char>)>,
    t1: Seq<char>,
    t2: Seq<char>,
)
    requires
        docs_ok(docs),
        ts_ok(t1),
        ts_ok(t2),
    ensures
        ({
            let out = spec_merge(spec_merge(content, docs, t1), docs, t2);
            &&& count_start_lines(spec_lines(out)) == 1
            &&& count_end_lines(spec_lines(out)) == 1
        }),
{
    let o1 = spec_merge(content, docs, t1);
    let t0 = spec_trim_end(spec_strip(content));
    lemma_render_lines_facts(docs, t1);
    lemma_render_lines_facts(docs, t2);
    lemma_marker_facts();
    crate::text::lemma_split_len(t0, '\n');
    if t0.len() == 0 {
        assert(o1 == spec_render(docs, t1));
        assert(spec_has_start(spec_lines(o1)));
    } else {
        assert(o1 == t0 + seq!['\n'] + seq!['\n'] + spec_render(docs, t1));
        lemma_compose_lines(t0, docs, t1);
        let lo = spec_lines(o1);
        let w = segs(t0).len() as int + 1;
        assert(lo[w] == spec_lines(spec_render(docs, t1))[0]);
        assert(is_start_line(lo[w]));
        assert(spec_has_start(lo));
    }
    let ls1 = spec_lines(o1);
    let e1 = strip_lines(ls1, false);
    lemma_strip_output(ls1, false);
    lemma_lines_elements(o1);
    assert forall|i: int| 0 <= i < e1.len() implies no_nl(#[trigger] e1[i]) by {
        assert(ls1.contains(e1[i]));
        let j = choose|j: int| 0 <= j < ls1.len() && ls1[j] == e1[i];
        assert(no_nl(ls1[j]));
    }
    let jn = join_lines(e1);
    lemma_segs_of_join(e1);
    assert(segs_marker_free(jn)) by {
        assert forall|i: int| 0 <= i < segs(jn).len() implies not_marker(segs(jn)[i]) by {
            if i < e1.len() {
                assert(segs(jn)[i] == e1[i]);
            } else {
                assert(segs(jn)[i] == Seq::<char>::empty());
            }
        }
    }
    lemma_trim_end_marker_free(jn);
    lemma_trim_end_idempotent(jn);
    assert(spec_strip(o1) == spec_trim_end(jn));
    let t2p = spec_trim_end(spec_strip(o1));
    assert(t2p == spec_trim_end(jn));
    assert(segs_marker_free(t2p));
    let out = spec_merge(o1, docs, t2);
    let s2 = spec_render(docs, t2);
    if t2p.len() == 0 {
        assert(out == s2);
    } else {
        assert(out == t2p + seq!['\n'] + seq!['\n'] + s2);
        lemma_compose_lines(t2p, docs, t2);
        let front = mapcr(segs(t2p));
        assert(no_marker_lines(front)) by {
            assert forall|i: int| 0 <= i < front.len() implies not_marker(front[i]) by {
                assert(front[i] == strip_cr(segs(t2p)[i]));
                lemma_not_marker_strip_cr(segs(t2p)[i]);
            }
        }
        lemma_count_marker_free(front);
        let b = seq![Seq::<char>::empty()] + spec_lines(s2);
        assert(spec_lines(out) =~= front + b);
        lemma_count_concat(front, b);
        lemma_count_concat(seq![Seq::<char>::empty()], spec_lines(s2));
        assert(seq![Seq::<char>::empty()].drop_first() =~= Seq::<Seq<char>>::empty());
        assert(count_start_lines(Seq::<Seq<char>>::empty()) == 0);
        assert(count_end_lines(Seq::<Seq<char>>::empty()) == 0);
        assert(seq![Seq::<char>::empty()].first() == Seq::<char>::empty());
        assert(count_start_lines(seq![Seq::<char>::empty()]) == 0);
        assert(count_end_lines(seq![Seq::<char>::empty()]) == 0);
    }
}

} // verus!
