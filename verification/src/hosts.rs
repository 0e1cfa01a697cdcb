//! The managed-section codec and the merge orchestrator: find, strip and
//! re-render the engine-owned, marker-delimited region of a host-mapping
//! file without disturbing user-authored content around it.

use vstd::prelude::*;
use crate::text::{
    append_chars, append_str, chars_eq, chars_of, spec_lines, spec_trim, spec_trim_end,
    split_lines, string_of, trim_chars, trim_end_chars,
};
use crate::validate::SourceDocument;

verus! {

// ------------------------------------------------------------------
// Markers and fixed lines
// ------------------------------------------------------------------

/// First line of the managed section.
pub open spec fn start_marker_spec() -> Seq<char> {
    "# >>> hosts_updater_rs START >>>"@
}

/// Last line of the managed section.
pub open spec fn end_marker_spec() -> Seq<char> {
    "# <<< hosts_updater_rs END <<<"@
}

/// Ownership disclaimer emitted right after the start marker.
pub open spec fn disclaimer_spec() -> Seq<char> {
    "# this region is auto-managed; do not edit by hand"@
}

/// Prefix of the timestamp comment line.
pub open spec fn last_updated_prefix_spec() -> Seq<char> {
    "# last updated: "@
}

/// Prefix of each provenance comment line.
pub open spec fn source_prefix_spec() -> Seq<char> {
    "# Source: "@
}

/// The literal start marker.
pub fn start_marker() -> (s: String)
    ensures
        s@ == start_marker_spec(),
{
    let v = chars_of("# >>> hosts_updater_rs START >>>");
    string_of(&v)
}

/// The literal end marker.
pub fn end_marker() -> (s: String)
    ensures
        s@ == end_marker_spec(),
{
    let v = chars_of("# <<< hosts_updater_rs END <<<");
    string_of(&v)
}

/// A line whose trimmed text is the start marker.
pub open spec fn is_start_line(l: Seq<char>) -> bool {
    spec_trim(l) == start_marker_spec()
}

/// A line whose trimmed text is the end marker.
pub open spec fn is_end_line(l: Seq<char>) -> bool {
    spec_trim(l) == end_marker_spec()
}

/// Path of the system host-mapping file.
pub fn get_hosts_path() -> (s: String)
    ensures
        s@ == "/etc/hosts"@,
{
    let v = chars_of("/etc/hosts");
    string_of(&v)
}

// ------------------------------------------------------------------
// Stripping the managed section
// ------------------------------------------------------------------

/// The lines kept by one pass over `ls`: marker lines always vanish, lines
/// between a start marker and the next end marker vanish, everything else
/// is kept. `inside` tells whether the pass begins within a region.
pub open spec fn strip_lines(ls: Seq<Seq<char>>, inside: bool) -> Seq<Seq<char>>
    decreases ls.len(),
{
    if ls.len() == 0 {
        Seq::<Seq<char>>::empty()
    } else if is_start_line(ls.first()) {
        strip_lines(ls.drop_first(), true)
    } else if is_end_line(ls.first()) {
        strip_lines(ls.drop_first(), false)
    } else if inside {
        strip_lines(ls.drop_first(), true)
    } else {
        seq![ls.first()] + strip_lines(ls.drop_first(), false)
    }
}

/// The region state after passing over `ls`.
pub open spec fn strip_state(ls: Seq<Seq<char>>, inside: bool) -> bool
    decreases ls.len(),
{
    if ls.len() == 0 {
        inside
    } else if is_start_line(ls.first()) {
        strip_state(ls.drop_first(), true)
    } else if is_end_line(ls.first()) {
        strip_state(ls.drop_first(), false)
    } else {
        strip_state(ls.drop_first(), inside)
    }
}

/// Whether any line is a start-marker line.
pub open spec fn spec_has_start(ls: Seq<Seq<char>>) -> bool {
    exists|i: int| 0 <= i < ls.len() && is_start_line(ls[i])
}

/// The lines joined back into a text, each with a trailing newline.
pub open spec fn join_lines(ls: Seq<Seq<char>>) -> Seq<char>
    decreases ls.len(),
{
    if ls.len() == 0 {
        Seq::<char>::empty()
    } else {
        ls.first() + seq!['\n'] + join_lines(ls.drop_first())
    }
}

/// Content with its managed section removed. Without a start marker the
/// content is returned unchanged; with one, the kept lines are rejoined
/// and trailing whitespace is trimmed.
pub open spec fn spec_strip(s: Seq<char>) -> Seq<char> {
    let ls = spec_lines(s);
    if !spec_has_start(ls) {
        s
    } else {
        spec_trim_end(join_lines(strip_lines(ls, false)))
    }
}

fn is_marker_line(l: &Vec<char>, marker: &str) -> (b: bool)
    ensures
        b == (spec_trim(l@) == marker@),
{
    let t = trim_chars(l);
    let m = chars_of(marker);
    chars_eq(&t, &m)
}

/// Remove the engine-owned managed section from `content`, keeping every
/// line outside it. Content without a start marker is returned verbatim;
/// an unterminated region is dropped to its end.
pub fn remove_auto_managed_section(content: &str) -> (r: String)
    ensures
        r@ == spec_strip(content@),
{
    let v = chars_of(content);
    let ls = split_lines(&v);
    let ghost lsq = spec_lines(content@);
    let mut kept: Vec<Vec<char>> = Vec::new();
    let mut inside = false;
    let mut found = false;
    let mut i: usize = 0;
    proof {
        assert(lsq.skip(0) =~= lsq);
    }
    while i < ls.len()
        invariant
            i <= ls@.len(),
            ls@.map_values(|l: Vec<char>| l@) == lsq,
            ls@.len() == lsq.len(),
            strip_lines(lsq, false) == kept@.map_values(|l: Vec<char>| l@) + strip_lines(
                lsq.skip(i as int),
                inside,
            ),
            found == exists|m: int| 0 <= m < i && is_start_line(lsq[m]),
            !found ==> !inside,
        decreases ls@.len() - i,
    {
        let ghost pre = lsq.skip(i as int);
        proof {
            assert(ls@[i as int]@ == lsq[i as int]);
            assert(pre.first() == lsq[i as int]);
            assert(pre.drop_first() =~= lsq.skip(i + 1));
        }
        let line = &ls[i];
        if is_marker_line(line, "# >>> hosts_updater_rs START >>>") {
            inside = true;
            found = true;
            proof {
                assert(is_start_line(lsq[i as int]));
            }
        } else if is_marker_line(line, "# <<< hosts_updater_rs END <<<") {
            inside = false;
        } else if !inside {
            let ghost m0 = kept@.map_values(|l: Vec<char>| l@);
            let mut cp: Vec<char> = Vec::new();
            append_chars(&mut cp, line);
            proof {
                assert(cp@ =~= lsq[i as int]);
            }
            kept.push(cp);
            proof {
                assert(kept@.map_values(|l: Vec<char>| l@) =~= m0 + seq![lsq[i as int]]);
                assert(strip_lines(pre, inside) == seq![pre.first()] + strip_lines(
                    lsq.skip(i + 1),
                    false,
                ));
                assert(m0 + (seq![pre.first()] + strip_lines(lsq.skip(i + 1), false)) =~= (m0
                    + seq![pre.first()]) + strip_lines(lsq.skip(i + 1), false));
            }
        }
        i = i + 1;
    }
    proof {
        assert(lsq.skip(lsq.len() as int) =~= Seq::<Seq<char>>::empty());
        assert(strip_lines(lsq, false) =~= kept@.map_values(|l: Vec<char>| l@));
    }
    if !found {
        proof {
            assert(!spec_has_start(lsq));
        }
        return string_of(&v);
    }
    let mut joined: Vec<char> = Vec::new();
    let mut k: usize = 0;
    proof {
        assert(spec_has_start(lsq));
    }
    while k < kept.len()
        invariant
            k <= kept@.len(),
            kept@.map_values(|l: Vec<char>| l@) == strip_lines(lsq, false),
            joined@ == join_lines(strip_lines(lsq, false).take(k as int)),
        decreases kept@.len() - k,
    {
        let ghost sl = strip_lines(lsq, false);
        proof {
            assert(kept@[k as int]@ == sl[k as int]);
        }
        append_chars(&mut joined, &kept[k]);
        joined.push('\n');
        proof {
            lemma_join_lines_snoc(sl.take(k as int), sl[k as int]);
            assert(sl.take(k as int).push(sl[k as int]) =~= sl.take(k + 1));
        }
        k = k + 1;
    }
    proof {
        assert(strip_lines(lsq, false).take(kept@.len() as int) =~= strip_lines(lsq, false));
    }
    let trimmed = trim_end_chars(&joined);
    string_of(&trimmed)
}

// ------------------------------------------------------------------
// Rendering the managed section
// ------------------------------------------------------------------

/// Origin and raw text of each document, as sequences of characters.
pub open spec fn docs_view(docs: Seq<SourceDocument>) -> Seq<(Seq<char>, Seq<char>)> {
    docs.map_values(|d: SourceDocument| (d.origin@, d.raw@))
}

/// The block a single document contributes to the managed section: a
/// provenance comment, the document's trimmed text, and a blank line.
pub open spec fn doc_block(origin: Seq<char>, raw: Seq<char>) -> Seq<char> {
    source_prefix_spec() + origin + seq!['\n'] + spec_trim(raw) + seq!['\n'] + seq!['\n']
}

/// The blocks of all documents, in caller order, never reordered or
/// deduplicated.
pub open spec fn doc_blocks(docs: Seq<(Seq<char>, Seq<char>)>) -> Seq<char>
    decreases docs.len(),
{
    if docs.len() == 0 {
        Seq::<char>::empty()
    } else {
        doc_block(docs.first().0, docs.first().1) + doc_blocks(docs.drop_first())
    }
}

pub proof fn lemma_doc_blocks_snoc(docs: Seq<(Seq<char>, Seq<char>)>, d: (Seq<char>, Seq<char>))
    ensures
        doc_blocks(docs.push(d)) == doc_blocks(docs) + doc_block(d.0, d.1),
    decreases docs.len(),
{
    if docs.len() == 0 {
        assert(docs.push(d).drop_first() =~= Seq::<(Seq<char>, Seq<char>)>::empty());
        assert(docs.push(d).first() == d);
        assert(doc_blocks(docs.push(d)) == doc_block(d.0, d.1) + doc_blocks(
            docs.push(d).drop_first(),
        ));
        assert(doc_blocks(docs.push(d).drop_first()) == Seq::<char>::empty());
        assert(doc_blocks(docs) == Seq::<char>::empty());
        assert(doc_block(d.0, d.1) + Seq::<char>::empty() =~= Seq::<char>::empty() + doc_block(
            d.0,
            d.1,
        ));
    } else {
        let rest = docs.drop_first();
        let h = doc_block(docs.first().0, docs.first().1);
        assert(docs.push(d).drop_first() =~= rest.push(d));
        assert(docs.push(d).first() == docs.first());
        lemma_doc_blocks_snoc(rest, d);
        assert(doc_blocks(docs.push(d)) == h + doc_blocks(rest.push(d)));
        assert(doc_blocks(rest.push(d)) == doc_blocks(rest) + doc_block(d.0, d.1));
        assert(doc_blocks(docs) == h + doc_blocks(rest));
        assert(h + (doc_blocks(rest) + doc_block(d.0, d.1)) =~= (h + doc_blocks(rest)) + doc_block(
            d.0,
            d.1,
        ));
    }
}

/// The fixed head of the managed section, up to and including the blank
/// line after the timestamp comment.
pub open spec fn section_head(ts: Seq<char>) -> Seq<char> {
    start_marker_spec() + seq!['\n'] + disclaimer_spec() + seq!['\n'] + last_updated_prefix_spec()
        + ts + seq!['\n'] + seq!['\n']
}

/// The whole managed section: head, one block per document, end marker.
pub open spec fn spec_render(docs: Seq<(Seq<char>, Seq<char>)>, ts: Seq<char>) -> Seq<char> {
    section_head(ts) + doc_blocks(docs) + end_marker_spec() + seq!['\n']
}

/// Render the managed section for the accepted documents, in caller
/// order, under the given timestamp.
pub fn build_auto_section(sources: &Vec<SourceDocument>, last_update: &str) -> (r: String)
    ensures
        r@ == spec_render(docs_view(sources@), last_update@),
{
    let mut acc: Vec<char> = Vec::new();
    append_str(&mut acc, "# >>> hosts_updater_rs START >>>");
    acc.push('\n');
    append_str(&mut acc, "# this region is auto-managed; do not edit by hand");
    acc.push('\n');
    append_str(&mut acc, "# last updated: ");
    append_str(&mut acc, last_update);
    acc.push('\n');
    acc.push('\n');
    let ghost head = section_head(last_update@);
    proof {
        assert(acc@ =~= head);
        assert(docs_view(sources@).take(0) =~= Seq::<(Seq<char>, Seq<char>)>::empty());
        assert(head + Seq::<char>::empty() =~= head);
    }
    let mut i: usize = 0;
    while i < sources.len()
        invariant
            i <= sources@.len(),
            acc@ == head + doc_blocks(docs_view(sources@).take(i as int)),
        decreases sources@.len() - i,
    {
        let ghost before = docs_view(sources@).take(i as int);
        let d = &sources[i];
        append_str(&mut acc, "# Source: ");
        append_str(&mut acc, d.origin.as_str());
        acc.push('\n');
        let rv = chars_of(d.raw.as_str());
        let tr = trim_chars(&rv);
        append_chars(&mut acc, &tr);
        acc.push('\n');
        acc.push('\n');
        proof {
            let dv = (d.origin@, d.raw@);
            assert(docs_view(sources@)[i as int] == dv);
            lemma_doc_blocks_snoc(before, dv);
            assert(before.push(dv) =~= docs_view(sources@).take(i + 1));
            assert(acc@ =~= head + doc_blocks(before) + doc_block(dv.0, dv.1));
            assert(head + doc_blocks(before) + doc_block(dv.0, dv.1) =~= head + (doc_blocks(before)
                + doc_block(dv.0, dv.1)));
        }
        i = i + 1;
    }
    proof {
        assert(docs_view(sources@).take(sources@.len() as int) =~= docs_view(sources@));
    }
    append_str(&mut acc, "# <<< hosts_updater_rs END <<<");
    acc.push('\n');
    proof {
        assert(acc@ =~= spec_render(docs_view(sources@), last_update@));
    }
    string_of(&acc)
}

// ------------------------------------------------------------------
// The merge orchestrator
// ------------------------------------------------------------------

/// The merged file content: the existing content with any prior managed
/// section removed and trailing whitespace trimmed, a blank line, and the
/// freshly rendered section; the section alone when nothing else is left.
pub open spec fn spec_merge(
    content: Seq<char>,
    docs: Seq<(Seq<char>, Seq<char>)>,
    ts: Seq<char>,
) -> Seq<char> {
    let t = spec_trim_end(spec_strip(content));
    if t.len() == 0 {
        spec_render(docs, ts)
    } else {
        t + seq!['\n'] + seq!['\n'] + spec_render(docs, ts)
    }
}

/// Merge the accepted documents into the existing file content. Pure: all
/// reading and writing of the real file belongs to the caller.
pub fn merge(existing_content: &str, sources: &Vec<SourceDocument>, last_update: &str) -> (r:
    String)
    ensures
        r@ == spec_merge(existing_content@, docs_view(sources@), last_update@),
{
    let stripped = remove_auto_managed_section(existing_content);
    let sv = chars_of(stripped.as_str());
    let t = trim_end_chars(&sv);
    let section = build_auto_section(sources, last_update);
    if t.len() == 0 {
        section
    } else {
        let mut acc = t;
        acc.push('\n');
        acc.push('\n');
        append_str(&mut acc, section.as_str());
        proof {
            assert(acc@ =~= spec_merge(existing_content@, docs_view(sources@), last_update@));
        }
        string_of(&acc)
    }
}

/// Joining after appending one line appends the line and a newline.
pub proof fn lemma_join_lines_snoc(ls: Seq<Seq<char>>, l: Seq<char>)
    ensures
        join_lines(ls.push(l)) == join_lines(ls) + l + seq!['\n'],
    decreases ls.len(),
{
    if ls.len() == 0 {
        assert(ls.push(l).drop_first() =~= Seq::<Seq<char>>::empty());
        assert(ls.push(l).first() == l);
        assert(join_lines(ls.push(l)) == l + seq!['\n'] + join_lines(ls.push(l).drop_first()));
        assert(join_lines(ls.push(l).drop_first()) == Seq::<char>::empty());
        assert(l + seq!['\n'] + Seq::<char>::empty() =~= join_lines(ls) + l + seq!['\n']);
    } else {
        let a = ls.first();
        let rest = ls.drop_first();
        assert(ls.push(l).drop_first() =~= rest.push(l));
        assert(ls.push(l).first() == a);
        lemma_join_lines_snoc(rest, l);
        assert(join_lines(ls.push(l)) == a + seq!['\n'] + join_lines(rest.push(l)));
        assert(join_lines(rest.push(l)) == join_lines(rest) + l + seq!['\n']);
        assert(a + seq!['\n'] + (join_lines(rest) + l + seq!['\n']) =~= (a + seq!['\n']
            + join_lines(rest)) + l + seq!['\n']);
        assert(join_lines(ls) == a + seq!['\n'] + join_lines(rest));
    }
}

} // verus!
