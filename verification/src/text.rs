//! Character classes and text primitives shared by the validators and the
//! managed-section codec: whitespace trimming, separator splitting, line
//! splitting (with carriage-return handling) and whitespace tokenisation,
//! all specified over `Seq<char>`.

use vstd::prelude::*;
use vstd::string::StrSliceExecFns;

verus! {

// ------------------------------------------------------------------
// Character classes
// ------------------------------------------------------------------

/// The characters with the Unicode `White_Space` property, as recognised by
/// `char::is_whitespace`.
pub open spec fn is_ws_char(c: char) -> bool {
    ||| c == ' '
    ||| c == '\t'
    ||| c == '\n'
    ||| c == '\r'
    ||| c as u32 == 0x0B
    ||| c as u32 == 0x0C
    ||| c as u32 == 0x85
    ||| c as u32 == 0xA0
    ||| c as u32 == 0x1680
    ||| (0x2000 <= c as u32 && c as u32 <= 0x200A)
    ||| c as u32 == 0x2028
    ||| c as u32 == 0x2029
    ||| c as u32 == 0x202F
    ||| c as u32 == 0x205F
    ||| c as u32 == 0x3000
}

pub fn ws_char(c: char) -> (b: bool)
    ensures
        b == is_ws_char(c),
{
    let u = c as u32;
    u == 0x20 || u == 0x09 || u == 0x0A || u == 0x0D || u == 0x0B || u == 0x0C || u == 0x85
        || u == 0xA0 || u == 0x1680 || (0x2000 <= u && u <= 0x200A) || u == 0x2028 || u == 0x2029
        || u == 0x202F || u == 0x205F || u == 0x3000
}

/// A control character (Unicode category Cc) that is not one of the textual
/// separators `\n`, `\r`, `\t` accepted inside a document.
pub open spec fn is_bad_control_char(c: char) -> bool {
    ((c as u32) < 0x20 || (0x7F <= c as u32 && c as u32 <= 0x9F)) && c != '\n' && c != '\r'
        && c != '\t'
}

pub fn bad_control_char(c: char) -> (b: bool)
    ensures
        b == is_bad_control_char(c),
{
    let u = c as u32;
    (u < 0x20 || (0x7F <= u && u <= 0x9F)) && u != 0x0A && u != 0x0D && u != 0x09
}

/// ASCII letter or digit.
pub open spec fn is_alnum_char(c: char) -> bool {
    ||| (0x30 <= c as u32 && c as u32 <= 0x39)
    ||| (0x41 <= c as u32 && c as u32 <= 0x5A)
    ||| (0x61 <= c as u32 && c as u32 <= 0x7A)
}

pub fn alnum_char(c: char) -> (b: bool)
    ensures
        b == is_alnum_char(c),
{
    let u = c as u32;
    (0x30 <= u && u <= 0x39) || (0x41 <= u && u <= 0x5A) || (0x61 <= u && u <= 0x7A)
}

/// ASCII decimal digit.
pub open spec fn is_digit_char(c: char) -> bool {
    0x30 <= c as u32 && c as u32 <= 0x39
}

pub fn digit_char(c: char) -> (b: bool)
    ensures
        b == is_digit_char(c),
{
    let u = c as u32;
    0x30 <= u && u <= 0x39
}

/// ASCII hexadecimal digit.
pub open spec fn is_hex_char(c: char) -> bool {
    ||| is_digit_char(c)
    ||| (0x41 <= c as u32 && c as u32 <= 0x46)
    ||| (0x61 <= c as u32 && c as u32 <= 0x66)
}

pub fn hex_char(c: char) -> (b: bool)
    ensures
        b == is_hex_char(c),
{
    let u = c as u32;
    (0x30 <= u && u <= 0x39) || (0x41 <= u && u <= 0x46) || (0x61 <= u && u <= 0x66)
}

// ------------------------------------------------------------------
// Conversions between strings and character vectors
// ------------------------------------------------------------------

/// The characters of a string, in order.
pub fn chars_of(s: &str) -> (v: Vec<char>)
    ensures
        v@ == s@,
{
    let n = s.unicode_len();
    let mut v: Vec<char> = Vec::new();
    let mut i: usize = 0;
    while i < n
        invariant
            i <= n,
            v@ == s@.take(i as int),
        decreases n - i,
    {
        let c = s.get_char(i);
        v.push(c);
        i = i + 1;
        proof {
            assert(v@ =~= s@.take(i as int));
        }
    }
    proof {
        assert(v@ =~= s@);
    }
    v
}

/// Relies on `String`'s `FromIterator<char>` implementation: collecting
/// `char` items yields the string made of exactly those characters in order.
#[verifier::external_body]
pub fn string_of(v: &Vec<char>) -> (s: String)
    ensures
        s@ == v@,
{
    v.iter().collect()
}

/// Character-wise equality of two vectors.
pub fn chars_eq(a: &Vec<char>, b: &Vec<char>) -> (r: bool)
    ensures
        r == (a@ == b@),
{
    if a.len() != b.len() {
        proof {
            assert(a@ != b@);
        }
        return false;
    }
    let mut i: usize = 0;
    while i < a.len()
        invariant
            i <= a.len(),
            a@.len() == b@.len(),
            forall|k: int| 0 <= k < i ==> a@[k] == b@[k],
        decreases a.len() - i,
    {
        if a[i] != b[i] {
            proof {
                assert(a@ != b@);
            }
            return false;
        }
        i = i + 1;
    }
    proof {
        assert(a@ =~= b@);
    }
    true
}

/// Copy of the character range `[from, to)`.
pub fn copy_range(v: &Vec<char>, from: usize, to: usize) -> (r: Vec<char>)
    requires
        from <= to <= v@.len(),
    ensures
        r@ == v@.subrange(from as int, to as int),
{
    let mut r: Vec<char> = Vec::new();
    let mut i: usize = from;
    while i < to
        invariant
            from <= i <= to,
            r@ == v@.subrange(from as int, i as int),
        decreases to - i,
    {
        r.push(v[i]);
        i = i + 1;
        proof {
            assert(r@ =~= v@.subrange(from as int, i as int));
        }
    }
    r
}

/// Append all characters of `src` to `acc`.
pub fn append_chars(acc: &mut Vec<char>, src: &Vec<char>)
    ensures
        final (acc)@ == old(acc)@ + src@,
{
    let mut i: usize = 0;
    while i < src.len()
        invariant
            i <= src@.len(),
            acc@ == old(acc)@ + src@.take(i as int),
        decreases src@.len() - i,
    {
        acc.push(src[i]);
        i = i + 1;
        proof {
            assert(acc@ =~= old(acc)@ + src@.take(i as int));
        }
    }
    proof {
        assert(acc@ =~= old(acc)@ + src@);
    }
}

/// Append the characters of a string to `acc`.
pub fn append_str(acc: &mut Vec<char>, s: &str)
    ensures
        final (acc)@ == old(acc)@ + s@,
{
    let n = s.unicode_len();
    let mut i: usize = 0;
    while i < n
        invariant
            i <= n,
            acc@ == old(acc)@ + s@.take(i as int),
        decreases n - i,
    {
        acc.push(s.get_char(i));
        i = i + 1;
        proof {
            assert(acc@ =~= old(acc)@ + s@.take(i as int));
        }
    }
    proof {
        assert(acc@ =~= old(acc)@ + s@);
    }
}

// ------------------------------------------------------------------
// Trimming
// ------------------------------------------------------------------

/// The sequence with its trailing whitespace removed.
pub open spec fn spec_trim_end(s: Seq<char>) -> Seq<char>
    decreases s.len(),
{
    if s.len() > 0 && is_ws_char(s.last()) {
        spec_trim_end(s.drop_last())
    } else {
        s
    }
}

/// The sequence with its leading whitespace removed.
pub open spec fn spec_trim_start(s: Seq<char>) -> Seq<char>
    decreases s.len(),
{
    if s.len() > 0 && is_ws_char(s.first()) {
        spec_trim_start(s.drop_first())
    } else {
        s
    }
}

/// The sequence with leading and trailing whitespace removed.
pub open spec fn spec_trim(s: Seq<char>) -> Seq<char> {
    spec_trim_start(spec_trim_end(s))
}

pub proof fn lemma_trim_end_take(s: Seq<char>, j: int)
    requires
        0 <= j <= s.len(),
        forall|k: int| j <= k < s.len() ==> is_ws_char(s[k]),
        j == 0 || !is_ws_char(s[j - 1]),
    ensures
        spec_trim_end(s) == s.take(j),
    decreases s.len(),
{
    if s.len() > j {
        assert(is_ws_char(s.last()));
        lemma_trim_end_take(s.drop_last(), j);
        assert(s.drop_last().take(j) =~= s.take(j));
    } else {
        assert(s.take(j) =~= s);
    }
}

pub proof fn lemma_trim_start_skip(s: Seq<char>, a: int)
    requires
        0 <= a <= s.len(),
        forall|k: int| 0 <= k < a ==> is_ws_char(s[k]),
        a == s.len() || !is_ws_char(s[a]),
    ensures
        spec_trim_start(s) == s.skip(a),
    decreases a,
{
    if a > 0 {
        assert(is_ws_char(s.first()));
        lemma_trim_start_skip(s.drop_first(), a - 1);
        assert(s.drop_first().skip(a - 1) =~= s.skip(a));
    } else {
        assert(s.skip(0) =~= s);
    }
}

/// The copy of `v` with trailing whitespace removed.
pub fn trim_end_chars(v: &Vec<char>) -> (r: Vec<char>)
    ensures
        r@ == spec_trim_end(v@),
{
    let mut b: usize = v.len();
    while b > 0 && ws_char(v[b - 1])
        invariant
            b <= v@.len(),
            forall|k: int| b <= k < v@.len() ==> is_ws_char(v@[k]),
        decreases b,
    {
        b = b - 1;
    }
    proof {
        lemma_trim_end_take(v@, b as int);
    }
    copy_range(v, 0, b)
}

/// The copy of `v` with leading and trailing whitespace removed.
pub fn trim_chars(v: &Vec<char>) -> (r: Vec<char>)
    ensures
        r@ == spec_trim(v@),
{
    let mut b: usize = v.len();
    while b > 0 && ws_char(v[b - 1])
        invariant
            b <= v@.len(),
            forall|k: int| b <= k < v@.len() ==> is_ws_char(v@[k]),
        decreases b,
    {
        b = b - 1;
    }
    proof {
        lemma_trim_end_take(v@, b as int);
    }
    let mut a: usize = 0;
    while a < b && ws_char(v[a])
        invariant
            a <= b,
            forall|k: int| 0 <= k < a ==> is_ws_char(v@[k]),
        decreases b - a,
    {
        a = a + 1;
    }
    proof {
        lemma_trim_start_skip(v@.take(b as int), a as int);
        assert(v@.take(b as int).skip(a as int) =~= v@.subrange(a as int, b as int));
    }
    copy_range(v, a, b)
}

// ------------------------------------------------------------------
// Splitting on a separator character
// ------------------------------------------------------------------

/// Split on a separator, keeping every (possibly empty) segment; the result
/// always holds one segment more than `s` holds separators.
pub open spec fn spec_split(s: Seq<char>, sep: char) -> Seq<Seq<char>>
    decreases s.len(),
{
    if s.len() == 0 {
        seq![Seq::<char>::empty()]
    } else if s[0] == sep {
        seq![Seq::<char>::empty()] + spec_split(s.drop_first(), sep)
    } else {
        let r = spec_split(s.drop_first(), sep);
        seq![seq![s[0]] + r[0]] + r.drop_first()
    }
}

pub proof fn lemma_split_len(s: Seq<char>, sep: char)
    ensures
        spec_split(s, sep).len() >= 1,
    decreases s.len(),
{
    if s.len() > 0 {
        lemma_split_len(s.drop_first(), sep);
    }
}

/// Splitting distributes over concatenation: the last segment of `x` and the
/// first segment of `y` fuse into one.
pub proof fn lemma_split_concat(x: Seq<char>, y: Seq<char>, sep: char)
    ensures
        spec_split(x + y, sep) == spec_split(x, sep).drop_last() + seq![
            spec_split(x, sep).last() + spec_split(y, sep).first(),
        ] + spec_split(y, sep).drop_first(),
    decreases x.len(),
{
    lemma_split_len(x, sep);
    lemma_split_len(y, sep);
    if x.len() == 0 {
        assert(x + y =~= y);
        assert(spec_split(x, sep) =~= seq![Seq::<char>::empty()]);
        assert(spec_split(x, sep).drop_last() =~= Seq::<Seq<char>>::empty());
        assert(spec_split(x, sep).last() + spec_split(y, sep).first() =~= spec_split(
            y,
            sep,
        ).first());
        assert(spec_split(x, sep).drop_last() + seq![
            spec_split(x, sep).last() + spec_split(y, sep).first(),
        ] + spec_split(y, sep).drop_first() =~= spec_split(y, sep));
    } else {
        let xy = x + y;
        assert(xy.len() > 0);
        assert(xy[0] == x[0]);
        assert(xy.drop_first() =~= x.drop_first() + y);
        lemma_split_concat(x.drop_first(), y, sep);
        lemma_split_len(x.drop_first(), sep);
        if x[0] == sep {
            assert(spec_split(xy, sep) =~= seq![Seq::<char>::empty()] + spec_split(
                x.drop_first() + y,
                sep,
            ));
            assert(spec_split(x, sep).drop_last() =~= seq![Seq::<char>::empty()] + spec_split(
                x.drop_first(),
                sep,
            ).drop_last());
            assert(spec_split(x, sep).last() == spec_split(x.drop_first(), sep).last());
            assert(spec_split(xy, sep) =~= spec_split(x, sep).drop_last() + seq![
                spec_split(x, sep).last() + spec_split(y, sep).first(),
            ] + spec_split(y, sep).drop_first());
        } else {
            let r = spec_split(x.drop_first() + y, sep);
            let rx = spec_split(x.drop_first(), sep);
            assert(spec_split(xy, sep) =~= seq![seq![x[0]] + r[0]] + r.drop_first());
            if rx.len() == 1 {
                assert(rx.drop_last() =~= Seq::<Seq<char>>::empty());
                assert(r[0] == rx.last() + spec_split(y, sep).first());
                assert(r.drop_first() =~= spec_split(y, sep).drop_first());
                assert(spec_split(x, sep) =~= seq![seq![x[0]] + rx[0]] + rx.drop_first());
                assert(spec_split(x, sep).drop_last() =~= Seq::<Seq<char>>::empty());
                assert(spec_split(x, sep).last() == seq![x[0]] + rx[0]);
                assert((seq![x[0]] + rx[0]) + spec_split(y, sep).first() =~= seq![x[0]] + r[0]);
                assert(spec_split(xy, sep) =~= spec_split(x, sep).drop_last() + seq![
                    spec_split(x, sep).last() + spec_split(y, sep).first(),
                ] + spec_split(y, sep).drop_first());
            } else {
                assert(r[0] == rx[0]);
                assert(spec_split(x, sep) =~= seq![seq![x[0]] + rx[0]] + rx.drop_first());
                assert(spec_split(x, sep).last() == rx.last());
                assert(spec_split(x, sep).drop_last() =~= seq![seq![x[0]] + rx[0]]
                    + rx.drop_last().drop_first());
                assert(r.drop_first() =~= rx.drop_last().drop_first() + seq![
                    rx.last() + spec_split(y, sep).first(),
                ] + spec_split(y, sep).drop_first());
                assert(spec_split(xy, sep) =~= spec_split(x, sep).drop_last() + seq![
                    spec_split(x, sep).last() + spec_split(y, sep).first(),
                ] + spec_split(y, sep).drop_first());
            }
        }
    }
}

/// The segments of `v` between separators, in order.
pub fn split_char(v: &Vec<char>, sep: char) -> (parts: Vec<Vec<char>>)
    ensures
        parts@.map_values(|p: Vec<char>| p@) == spec_split(v@, sep),
{
    proof {
        lemma_split_len(v@, sep);
        assert(v@.skip(0) =~= v@);
        assert(Seq::<char>::empty() + spec_split(v@, sep).first() =~= spec_split(v@, sep).first());
        assert(seq![spec_split(v@, sep).first()] + spec_split(v@, sep).drop_first() =~= spec_split(
            v@,
            sep,
        ));
        assert(Seq::<Seq<char>>::empty() + spec_split(v@, sep) =~= spec_split(v@, sep));
    }
    let mut parts: Vec<Vec<char>> = Vec::new();
    let mut cur: Vec<char> = Vec::new();
    let mut i: usize = 0;
    while i < v.len()
        invariant
            i <= v@.len(),
            spec_split(v@.skip(i as int), sep).len() >= 1,
            spec_split(v@, sep) == parts@.map_values(|p: Vec<char>| p@) + seq![
                cur@ + spec_split(v@.skip(i as int), sep).first(),
            ] + spec_split(v@.skip(i as int), sep).drop_first(),
        decreases v@.len() - i,
    {
        let ghost pre = v@.skip(i as int);
        let ghost m0 = parts@.map_values(|p: Vec<char>| p@);
        let ghost c0 = cur@;
        let c = v[i];
        proof {
            assert(pre[0] == v@[i as int]);
            assert(pre.drop_first() =~= v@.skip(i + 1));
            lemma_split_len(v@.skip(i + 1), sep);
        }
        let ghost r = spec_split(v@.skip(i + 1), sep);
        if c == sep {
            let done = cur;
            cur = Vec::new();
            parts.push(done);
            proof {
                assert(spec_split(pre, sep) == seq![Seq::<char>::empty()] + r);
                assert(spec_split(pre, sep).first() == Seq::<char>::empty());
                assert(spec_split(pre, sep).drop_first() =~= r);
                assert(c0 + Seq::<char>::empty() =~= c0);
                assert(Seq::<char>::empty() + r.first() =~= r.first());
                assert(seq![r.first()] + r.drop_first() =~= r);
                assert(parts@.map_values(|p: Vec<char>| p@) =~= m0 + seq![c0]);
                // from the invariant: spec_split(v@) == m0 + [c0] + r
                assert(m0 + seq![c0 + spec_split(pre, sep).first()] + spec_split(
                    pre,
                    sep,
                ).drop_first() =~= (m0 + seq![c0]) + (seq![r.first()] + r.drop_first()));
                assert((m0 + seq![c0]) + (seq![r.first()] + r.drop_first()) =~= (m0 + seq![c0])
                    + seq![Seq::<char>::empty() + r.first()] + r.drop_first());
                assert(spec_split(v@, sep) == parts@.map_values(|p: Vec<char>| p@) + seq![
                    cur@ + r.first(),
                ] + r.drop_first());
            }
        } else {
            cur.push(c);
            proof {
                assert(spec_split(pre, sep) == seq![seq![pre[0]] + r[0]] + r.drop_first());
                assert(spec_split(pre, sep).first() == seq![c] + r.first());
                assert(spec_split(pre, sep).drop_first() =~= r.drop_first());
                assert(cur@ + r.first() =~= c0 + (seq![c] + r.first()));
                assert(seq![cur@ + r.first()] =~= seq![c0 + spec_split(pre, sep).first()]);
                assert(spec_split(v@, sep) == parts@.map_values(|p: Vec<char>| p@) + seq![
                    cur@ + r.first(),
                ] + r.drop_first());
            }
        }
        i = i + 1;
    }
    let ghost m0 = parts@.map_values(|p: Vec<char>| p@);
    let ghost last_seg = cur@;
    proof {
        assert(v@.skip(v@.len() as int) =~= Seq::<char>::empty());
        assert(spec_split(Seq::<char>::empty(), sep).first() == Seq::<char>::empty());
        assert(last_seg + Seq::<char>::empty() =~= last_seg);
        assert(spec_split(Seq::<char>::empty(), sep).drop_first()
            =~= Seq::<Seq<char>>::empty());
        assert(m0 + seq![last_seg] + Seq::<Seq<char>>::empty() =~= m0 + seq![last_seg]);
    }
    parts.push(cur);
    proof {
        assert(parts@.map_values(|p: Vec<char>| p@) =~= m0 + seq![last_seg]);
        assert(spec_split(v@, sep) == parts@.map_values(|p: Vec<char>| p@));
    }
    parts
}

// ------------------------------------------------------------------
// Logical lines
// ------------------------------------------------------------------

/// A segment with one trailing carriage return removed, as `str::lines` does
/// for `\r\n` line endings.
pub open spec fn strip_cr(l: Seq<char>) -> Seq<char> {
    if l.len() > 0 && l.last() == '\r' {
        l.drop_last()
    } else {
        l
    }
}

/// The logical lines of a text, following `str::lines`: split on `\n`,
/// remove one `\r` before each `\n`, and do not yield a final empty line
/// when the text ends with a newline.
pub open spec fn spec_lines(s: Seq<char>) -> Seq<Seq<char>> {
    let g = spec_split(s, '\n');
    if g.last().len() == 0 {
        g.drop_last().map_values(|l: Seq<char>| strip_cr(l))
    } else {
        g.drop_last().map_values(|l: Seq<char>| strip_cr(l)).push(g.last())
    }
}

fn strip_cr_copy(l: &Vec<char>) -> (r: Vec<char>)
    ensures
        r@ == strip_cr(l@),
{
    if l.len() > 0 && l[l.len() - 1] == '\r' {
        let r = copy_range(l, 0, l.len() - 1);
        proof {
            assert(r@ =~= l@.drop_last());
        }
        r
    } else {
        let r = copy_range(l, 0, l.len());
        proof {
            assert(r@ =~= l@);
        }
        r
    }
}

/// The logical lines of `v`.
pub fn split_lines(v: &Vec<char>) -> (ls: Vec<Vec<char>>)
    ensures
        ls@.map_values(|l: Vec<char>| l@) == spec_lines(v@),
{
    let parts = split_char(v, '\n');
    proof {
        lemma_split_len(v@, '\n');
    }
    let ghost g = spec_split(v@, '\n');
    let glen = parts.len();
    let last_empty = parts[glen - 1].len() == 0;
    let keep = glen - 1;
    let mut ls: Vec<Vec<char>> = Vec::new();
    let mut i: usize = 0;
    while i < keep
        invariant
            i <= keep,
            keep == g.len() - 1,
            parts@.map_values(|p: Vec<char>| p@) == g,
            parts@.len() == g.len(),
            ls@.map_values(|l: Vec<char>| l@) == g.drop_last().map_values(
                |l: Seq<char>| strip_cr(l),
            ).take(i as int),
        decreases keep - i,
    {
        let ghost m0 = ls@.map_values(|l: Vec<char>| l@);
        let piece = strip_cr_copy(&parts[i]);
        ls.push(piece);
        proof {
            assert(parts@[i as int]@ == g[i as int]);
            assert(ls@.map_values(|l: Vec<char>| l@) =~= m0 + seq![strip_cr(g[i as int])]);
            assert(ls@.map_values(|l: Vec<char>| l@) =~= g.drop_last().map_values(
                |l: Seq<char>| strip_cr(l),
            ).take(i + 1));
        }
        i = i + 1;
    }
    proof {
        assert(g.drop_last().map_values(|l: Seq<char>| strip_cr(l)).take(keep as int)
            =~= g.drop_last().map_values(|l: Seq<char>| strip_cr(l)));
    }
    if !last_empty {
        let ghost m0 = ls@.map_values(|l: Vec<char>| l@);
        let raw = copy_range(&parts[glen - 1], 0, parts[glen - 1].len());
        proof {
            assert(raw@ =~= parts@[glen - 1]@);
        }
        ls.push(raw);
        proof {
            assert(ls@.map_values(|l: Vec<char>| l@) =~= m0 + seq![g.last()]);
            assert(ls@.map_values(|l: Vec<char>| l@) =~= spec_lines(v@));
        }
    } else {
        proof {
            assert(ls@.map_values(|l: Vec<char>| l@) =~= spec_lines(v@));
        }
    }
    ls
}

// ------------------------------------------------------------------
// Whitespace tokenisation
// ------------------------------------------------------------------

/// Length of the maximal run of non-whitespace characters at the front.
pub open spec fn first_token_len(s: Seq<char>) -> nat
    decreases s.len(),
{
    if s.len() == 0 || is_ws_char(s[0]) {
        0
    } else {
        1 + first_token_len(s.drop_first())
    }
}

pub proof fn lemma_first_token_len_bound(s: Seq<char>)
    ensures
        first_token_len(s) <= s.len(),
    decreases s.len(),
{
    if s.len() > 0 && !is_ws_char(s[0]) {
        lemma_first_token_len_bound(s.drop_first());
    }
}

/// The maximal runs of non-whitespace characters, in order, as
/// `str::split_whitespace` yields them.
pub open spec fn spec_tokens(s: Seq<char>) -> Seq<Seq<char>>
    decreases s.len(),
{
    if s.len() == 0 {
        Seq::<Seq<char>>::empty()
    } else if is_ws_char(s[0]) {
        spec_tokens(s.drop_first())
    } else {
        proof {
            lemma_first_token_len_bound(s);
            assert(first_token_len(s) >= 1);
        }
        seq![s.take(first_token_len(s) as int)] + spec_tokens(s.skip(first_token_len(s) as int))
    }
}

pub proof fn lemma_first_token_len(s: Seq<char>, k: int)
    requires
        0 <= k <= s.len(),
        forall|m: int| 0 <= m < k ==> !is_ws_char(s[m]),
        k == s.len() || is_ws_char(s[k]),
    ensures
        first_token_len(s) == k,
    decreases k,
{
    if k > 0 {
        lemma_first_token_len(s.drop_first(), k - 1);
    }
}

/// The whitespace-separated tokens of `v`.
pub fn tokenize(v: &Vec<char>) -> (toks: Vec<Vec<char>>)
    ensures
        toks@.map_values(|t: Vec<char>| t@) == spec_tokens(v@),
{
    let mut toks: Vec<Vec<char>> = Vec::new();
    let mut i: usize = 0;
    proof {
        assert(v@.skip(0) =~= v@);
    }
    while i < v.len()
        invariant
            i <= v@.len(),
            spec_tokens(v@) == toks@.map_values(|t: Vec<char>| t@) + spec_tokens(
                v@.skip(i as int),
            ),
        decreases v@.len() - i,
    {
        let ghost pre = v@.skip(i as int);
        if ws_char(v[i]) {
            proof {
                assert(pre[0] == v@[i as int]);
                assert(pre.drop_first() =~= v@.skip(i + 1));
                assert(spec_tokens(pre) == spec_tokens(v@.skip(i + 1)));
            }
            i = i + 1;
        } else {
            let mut j: usize = i + 1;
            while j < v.len() && !ws_char(v[j])
                invariant
                    i < j <= v@.len(),
                    forall|m: int| i <= m < j ==> !is_ws_char(v@[m]),
                decreases v@.len() - j,
            {
                j = j + 1;
            }
            let ghost m0 = toks@.map_values(|t: Vec<char>| t@);
            let tok = copy_range(v, i, j);
            toks.push(tok);
            proof {
                assert(forall|m: int| 0 <= m < j - i ==> pre[m] == v@[i + m]);
                lemma_first_token_len(pre, j - i);
                assert(pre.take(j - i) =~= v@.subrange(i as int, j as int));
                assert(pre.skip(j - i) =~= v@.skip(j as int));
                assert(spec_tokens(pre) == seq![pre.take(j - i)] + spec_tokens(v@.skip(j as int)));
                assert(toks@.map_values(|t: Vec<char>| t@) =~= m0 + seq![
                    v@.subrange(i as int, j as int),
                ]);
                assert(m0 + seq![v@.subrange(i as int, j as int)] + spec_tokens(v@.skip(j as int))
                    =~= m0 + (seq![pre.take(j - i)] + spec_tokens(v@.skip(j as int))));
            }
            i = j;
        }
    }
    proof {
        assert(v@.skip(v@.len() as int) =~= Seq::<char>::empty());
        assert(spec_tokens(v@) =~= toks@.map_values(|t: Vec<char>| t@));
    }
    toks
}

} // verus!

