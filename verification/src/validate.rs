//! The line grammar validator and the document validator: they decide
//! whether fetched text is a well-formed host-mapping document, line by
//! line, before any of it may reach the managed section of the target file.

use vstd::prelude::*;
use vstd::string::StringExecFns;
use crate::text::{
    alnum_char, chars_of, copy_range, digit_char, hex_char, is_alnum_char, is_bad_control_char,
    is_digit_char, is_hex_char, spec_lines, spec_split, spec_tokens, spec_trim, split_char,
    split_lines, string_of, tokenize, trim_chars, bad_control_char, lemma_split_len,
};

verus! {

// ------------------------------------------------------------------
// Data model
// ------------------------------------------------------------------

/// Raw text fetched from one configured origin, before validation.
pub struct SourceDocument {
    pub origin: String,
    pub raw: String,
}

/// One validated mapping line: an address and the names mapped to it.
#[derive(Debug)]
pub struct Record {
    pub address: String,
    pub names: Vec<String>,
}

/// Why a document, or one of its lines, was rejected.
#[derive(Debug)]
pub enum ValidationError {
    /// The document text is empty or whitespace-only.
    EmptyDocument,
    /// A control character other than `\n`, `\r`, `\t` occurs at this
    /// character offset.
    IllegalControlCharacter { offset: usize },
    /// A record line holds fewer than two tokens.
    MissingField,
    /// The first token of a record line is not an IPv4 or IPv6 address.
    InvalidAddress { token: String },
    /// A name token violates the label grammar; `label` holds the first
    /// offending label, or nothing when only the total length is at fault.
    InvalidName { token: String, label: Option<String> },
    /// A line of a document failed, with its 1-based number, its trimmed
    /// text, the document's origin, and the underlying error.
    LineValidationError { line_no: usize, text: String, origin: String, cause: Box<ValidationError> },
}

// ------------------------------------------------------------------
// IPv4 grammar
// ------------------------------------------------------------------

/// Numeric value of a decimal digit string.
pub open spec fn digits_val(p: Seq<char>) -> int
    decreases p.len(),
{
    if p.len() == 0 {
        0
    } else {
        digits_val(p.drop_last()) * 10 + (p.last() as u32 - 0x30)
    }
}

/// A canonical decimal octet: one to three digits, no leading zero, value
/// at most 255.
pub open spec fn octet_ok(p: Seq<char>) -> bool {
    &&& 1 <= p.len() <= 3
    &&& (forall|i: int| 0 <= i < p.len() ==> is_digit_char(p[i]))
    &&& (p.len() > 1 ==> p[0] != '0')
    &&& digits_val(p) <= 255
}

/// Four dot-separated canonical octets.
pub open spec fn spec_is_valid_ipv4(s: Seq<char>) -> bool {
    let ps = spec_split(s, '.');
    ps.len() == 4 && (forall|i: int| 0 <= i < ps.len() ==> octet_ok(ps[i]))
}

proof fn lemma_digits_val_bound(s: Seq<char>)
    requires
        forall|k: int| 0 <= k < s.len() ==> is_digit_char(s[k]),
    ensures
        0 <= digits_val(s),
        s.len() <= 1 ==> digits_val(s) <= 9,
        s.len() <= 2 ==> digits_val(s) <= 99,
        s.len() <= 3 ==> digits_val(s) <= 999,
    decreases s.len(),
{
    if s.len() > 0 {
        lemma_digits_val_bound(s.drop_last());
    }
}

fn octet_check(p: &Vec<char>) -> (b: bool)
    ensures
        b == octet_ok(p@),
{
    let n = p.len();
    if n < 1 || n > 3 {
        return false;
    }
    let mut i: usize = 0;
    let mut val: u32 = 0;
    while i < n
        invariant
            i <= n,
            n == p@.len(),
            1 <= n <= 3,
            forall|k: int| 0 <= k < i ==> is_digit_char(p@[k]),
            val == digits_val(p@.take(i as int)),
            val <= 999,
        decreases n - i,
    {
        let c = p[i];
        if !digit_char(c) {
            return false;
        }
        proof {
            assert(p@.take(i + 1).drop_last() =~= p@.take(i as int));
            lemma_digits_val_bound(p@.take(i as int));
            lemma_digits_val_bound(p@.take(i + 1));
        }
        val = val * 10 + (c as u32 - 0x30);
        i = i + 1;
    }
    proof {
        assert(p@.take(n as int) =~= p@);
    }
    if n > 1 && p[0] == '0' {
        return false;
    }
    val <= 255
}

fn is_valid_ipv4_chars(v: &Vec<char>) -> (b: bool)
    ensures
        b == spec_is_valid_ipv4(v@),
{
    let parts = split_char(v, '.');
    let ghost ps = spec_split(v@, '.');
    if parts.len() != 4 {
        return false;
    }
    let mut i: usize = 0;
    while i < 4
        invariant
            i <= 4,
            parts@.len() == 4,
            parts@.map_values(|p: Vec<char>| p@) == ps,
            ps.len() == 4,
            forall|k: int| 0 <= k < i ==> octet_ok(ps[k]),
        decreases 4 - i,
    {
        proof {
            assert(parts@[i as int]@ == ps[i as int]);
        }
        if !octet_check(&parts[i]) {
            return false;
        }
        i = i + 1;
    }
    true
}

// ------------------------------------------------------------------
// IPv6 grammar
// ------------------------------------------------------------------

/// One to four hexadecimal digits.
pub open spec fn hex_group_ok(p: Seq<char>) -> bool {
    1 <= p.len() <= 4 && (forall|i: int| 0 <= i < p.len() ==> is_hex_char(p[i]))
}

/// A double colon starts at position `k`.
pub open spec fn dc_at(s: Seq<char>, k: int) -> bool {
    0 <= k < s.len() - 1 && s[k] == ':' && s[k + 1] == ':'
}

/// Position of the first double colon, or -1 when there is none.
pub open spec fn spec_first_dc(s: Seq<char>) -> int
    decreases s.len(),
{
    if s.len() < 2 {
        -1
    } else if s[0] == ':' && s[1] == ':' {
        0
    } else {
        let r = spec_first_dc(s.drop_first());
        if r < 0 {
            -1
        } else {
            r + 1
        }
    }
}

proof fn lemma_first_dc_found(s: Seq<char>, k: int)
    requires
        dc_at(s, k),
        forall|m: int| 0 <= m < k ==> !dc_at(s, m),
    ensures
        spec_first_dc(s) == k,
    decreases k,
{
    if k > 0 {
        assert(!dc_at(s, 0));
        assert(dc_at(s.drop_first(), k - 1));
        assert(forall|m: int| 0 <= m < k - 1 ==> dc_at(s, m + 1) == dc_at(s.drop_first(), m));
        lemma_first_dc_found(s.drop_first(), k - 1);
    }
}

proof fn lemma_first_dc_none(s: Seq<char>)
    requires
        forall|m: int| 0 <= m < s.len() - 1 ==> !dc_at(s, m),
    ensures
        spec_first_dc(s) == -1,
    decreases s.len(),
{
    if s.len() >= 2 {
        assert(!dc_at(s, 0));
        assert(forall|m: int| 0 <= m < s.drop_first().len() - 1 ==> dc_at(s, m + 1) == dc_at(
            s.drop_first(),
            m,
        ));
        lemma_first_dc_none(s.drop_first());
    }
}

/// Group count of a compressed-notation side that admits hexadecimal
/// groups only, or -1 when the side is ill-formed.
pub open spec fn side_groups_hex_only(l: Seq<char>) -> int {
    if l.len() == 0 {
        0
    } else {
        let ps = spec_split(l, ':');
        if forall|i: int| 0 <= i < ps.len() ==> hex_group_ok(ps[i]) {
            ps.len() as int
        } else {
            -1
        }
    }
}

/// Group count of a side that may end in an embedded IPv4 address (which
/// stands for two groups), or -1 when the side is ill-formed.
pub open spec fn side_groups_v4_tail(r: Seq<char>) -> int {
    if r.len() == 0 {
        0
    } else {
        let ps = spec_split(r, ':');
        if forall|i: int| 0 <= i < ps.len() ==> hex_group_ok(ps[i]) {
            ps.len() as int
        } else if (forall|i: int| 0 <= i < ps.len() - 1 ==> hex_group_ok(ps[i]))
            && spec_is_valid_ipv4(ps.last()) {
            ps.len() + 1 as int
        } else {
            -1
        }
    }
}

/// The textual IPv6 grammar: eight colon-separated hexadecimal groups, the
/// last two of which may be written as an embedded IPv4 address, or a
/// compressed form with one `::` standing for at least one zero group.
pub open spec fn spec_is_valid_ipv6(s: Seq<char>) -> bool {
    if spec_first_dc(s) >= 0 {
        let l = s.take(spec_first_dc(s));
        let r = s.skip(spec_first_dc(s) + 2);
        &&& side_groups_hex_only(l) >= 0
        &&& side_groups_v4_tail(r) >= 0
        &&& side_groups_hex_only(l) + side_groups_v4_tail(r) <= 7
    } else {
        let ps = spec_split(s, ':');
        ||| (ps.len() == 8 && (forall|i: int| 0 <= i < ps.len() ==> hex_group_ok(ps[i])))
        ||| (ps.len() == 7 && (forall|i: int| 0 <= i < 6 ==> hex_group_ok(ps[i]))
            && spec_is_valid_ipv4(ps.last()))
    }
}

fn hex_group_check(p: &Vec<char>) -> (b: bool)
    ensures
        b == hex_group_ok(p@),
{
    let n = p.len();
    if n < 1 || n > 4 {
        return false;
    }
    let mut i: usize = 0;
    while i < n
        invariant
            i <= n,
            n == p@.len(),
            forall|k: int| 0 <= k < i ==> is_hex_char(p@[k]),
        decreases n - i,
    {
        if !hex_char(p[i]) {
            return false;
        }
        i = i + 1;
    }
    true
}

fn find_first_dc(v: &Vec<char>) -> (r: Option<usize>)
    ensures
        match r {
            Some(k) => spec_first_dc(v@) == k && dc_at(v@, k as int),
            None => spec_first_dc(v@) == -1,
        },
{
    if v.len() < 2 {
        proof {
            lemma_first_dc_none(v@);
        }
        return None;
    }
    let mut k: usize = 0;
    while k < v.len() - 1
        invariant
            k <= v@.len() - 1,
            v@.len() >= 2,
            forall|m: int| 0 <= m < k ==> !dc_at(v@, m),
        decreases v@.len() - k,
    {
        if v[k] == ':' && v[k + 1] == ':' {
            proof {
                lemma_first_dc_found(v@, k as int);
            }
            return Some(k);
        }
        k = k + 1;
    }
    proof {
        lemma_first_dc_none(v@);
    }
    None
}

fn side_hex_groups(l: &Vec<char>) -> (r: Option<usize>)
    ensures
        match r {
            Some(n) => side_groups_hex_only(l@) == n,
            None => side_groups_hex_only(l@) == -1,
        },
{
    if l.len() == 0 {
        return Some(0);
    }
    let parts = split_char(l, ':');
    let ghost ps = spec_split(l@, ':');
    let mut i: usize = 0;
    while i < parts.len()
        invariant
            i <= parts@.len(),
            parts@.map_values(|p: Vec<char>| p@) == ps,
            parts@.len() == ps.len(),
            forall|k: int| 0 <= k < i ==> hex_group_ok(ps[k]),
        decreases parts@.len() - i,
    {
        proof {
            assert(parts@[i as int]@ == ps[i as int]);
        }
        if !hex_group_check(&parts[i]) {
            return None;
        }
        i = i + 1;
    }
    Some(parts.len())
}

fn side_v4_groups(r: &Vec<char>) -> (res: Option<(usize, bool)>)
    ensures
        match res {
            Some(p) => side_groups_v4_tail(r@) == p.0 + (if p.1 {
                1 as int
            } else {
                0 as int
            }),
            None => side_groups_v4_tail(r@) == -1,
        },
{
    if r.len() == 0 {
        return Some((0, false));
    }
    let parts = split_char(r, ':');
    let ghost ps = spec_split(r@, ':');
    proof {
        lemma_split_len(r@, ':');
    }
    let n = parts.len();
    let mut i: usize = 0;
    let mut all_hex = true;
    let mut bad: usize = 0;
    while i < n
        invariant
            i <= n,
            n == parts@.len(),
            parts@.map_values(|p: Vec<char>| p@) == ps,
            parts@.len() == ps.len(),
            all_hex ==> forall|k: int| 0 <= k < i ==> hex_group_ok(ps[k]),
            !all_hex ==> {
                &&& 0 <= bad < i
                &&& !hex_group_ok(ps[bad as int])
                &&& forall|k: int| 0 <= k < bad ==> hex_group_ok(ps[k])
            },
        decreases n - i,
    {
        proof {
            assert(parts@[i as int]@ == ps[i as int]);
        }
        if all_hex && !hex_group_check(&parts[i]) {
            all_hex = false;
            bad = i;
        }
        i = i + 1;
    }
    if all_hex {
        return Some((n, false));
    }
    // Only a final embedded IPv4 part can save the side now.
    if bad == n - 1 {
        let last = &parts[n - 1];
        proof {
            assert(parts@[parts@.len() - 1]@ == ps.last());
        }
        if is_valid_ipv4_chars(last) {
            proof {
                assert(side_groups_v4_tail(r@) == ps.len() + 1 as int);
            }
            return Some((n, true));
        }
    }
    proof {
        assert(side_groups_v4_tail(r@) == -1);
    }
    None
}

fn is_valid_ipv6_chars(v: &Vec<char>) -> (b: bool)
    ensures
        b == spec_is_valid_ipv6(v@),
{
    let n = v.len();
    match find_first_dc(v) {
        Some(k) => {
            let l = copy_range(v, 0, k);
            let r = copy_range(v, k + 2, n);
            proof {
                assert(l@ =~= v@.take(k as int));
                assert(r@ =~= v@.skip(k + 2));
            }
            let lg = side_hex_groups(&l);
            let rg = side_v4_groups(&r);
            match (lg, rg) {
                (Some(a), Some(p)) => {
                    let (m, v4) = p;
                    if a > 7 {
                        false
                    } else if v4 {
                        m < 7 - a
                    } else {
                        m <= 7 - a
                    }
                },
                _ => false,
            }
        },
        None => {
            let parts = split_char(v, ':');
            let ghost ps = spec_split(v@, ':');
            if parts.len() == 8 {
                let mut i: usize = 0;
                while i < 8
                    invariant
                        i <= 8,
                        parts@.map_values(|p: Vec<char>| p@) == ps,
                        parts@.len() == 8,
                        ps.len() == 8,
                        forall|k: int| 0 <= k < i ==> hex_group_ok(ps[k]),
                    decreases 8 - i,
                {
                    proof {
                        assert(parts@[i as int]@ == ps[i as int]);
                    }
                    if !hex_group_check(&parts[i]) {
                        return false;
                    }
                    i = i + 1;
                }
                true
            } else if parts.len() == 7 {
                let mut i: usize = 0;
                while i < 6
                    invariant
                        i <= 6,
                        parts@.map_values(|p: Vec<char>| p@) == ps,
                        parts@.len() == 7,
                        ps.len() == 7,
                        forall|k: int| 0 <= k < i ==> hex_group_ok(ps[k]),
                    decreases 6 - i,
                {
                    proof {
                        assert(parts@[i as int]@ == ps[i as int]);
                    }
                    if !hex_group_check(&parts[i]) {
                        return false;
                    }
                    i = i + 1;
                }
                proof {
                    assert(parts@[6]@ == ps.last());
                }
                is_valid_ipv4_chars(&parts[6])
            } else {
                false
            }
        },
    }
}

// ------------------------------------------------------------------
// Addresses
// ------------------------------------------------------------------

/// A valid address token: IPv4 dotted quad, bare IPv6, or IPv6 wrapped in
/// square brackets.
pub open spec fn spec_is_valid_ip(s: Seq<char>) -> bool {
    ||| spec_is_valid_ipv4(s)
    ||| spec_is_valid_ipv6(s)
    ||| (s.len() >= 2 && s[0] == '[' && s.last() == ']' && spec_is_valid_ipv6(
        s.subrange(1, s.len() - 1),
    ))
}

pub fn is_valid_ip_chars(v: &Vec<char>) -> (b: bool)
    ensures
        b == spec_is_valid_ip(v@),
{
    if is_valid_ipv4_chars(v) {
        return true;
    }
    if is_valid_ipv6_chars(v) {
        return true;
    }
    if v.len() >= 2 && v[0] == '[' && v[v.len() - 1] == ']' {
        let inner = copy_range(v, 1, v.len() - 1);
        return is_valid_ipv6_chars(&inner);
    }
    false
}

/// Whether a token is a textual IPv4 or IPv6 address.
pub fn is_valid_ip(ip: &str) -> (b: bool)
    ensures
        b == spec_is_valid_ip(ip@),
{
    let v = chars_of(ip);
    is_valid_ip_chars(&v)
}

// ------------------------------------------------------------------
// Names
// ------------------------------------------------------------------

/// One hostname label: 1 to 63 characters, alphanumeric or `-`, with an
/// alphanumeric first and last character.
pub open spec fn label_ok(l: Seq<char>) -> bool {
    &&& 1 <= l.len() <= 63
    &&& is_alnum_char(l[0])
    &&& is_alnum_char(l[l.len() - 1])
    &&& (forall|i: int| 0 <= i < l.len() ==> is_alnum_char(l[i]) || l[i] == '-')
}

/// A valid name: dot-separated labels, total length at most 253.
pub open spec fn spec_is_valid_domain(s: Seq<char>) -> bool {
    &&& 1 <= s.len() <= 253
    &&& (forall|i: int| 0 <= i < spec_split(s, '.').len() ==> label_ok(spec_split(s, '.')[i]))
}

fn label_check(l: &Vec<char>) -> (b: bool)
    ensures
        b == label_ok(l@),
{
    let n = l.len();
    if n < 1 || n > 63 {
        return false;
    }
    if !alnum_char(l[0]) || !alnum_char(l[n - 1]) {
        return false;
    }
    let mut i: usize = 0;
    while i < n
        invariant
            i <= n,
            n == l@.len(),
            forall|k: int| 0 <= k < i ==> is_alnum_char(l@[k]) || l@[k] == '-',
        decreases n - i,
    {
        let c = l[i];
        if !alnum_char(c) && c != '-' {
            return false;
        }
        i = i + 1;
    }
    true
}

pub fn is_valid_domain_chars(v: &Vec<char>) -> (b: bool)
    ensures
        b == spec_is_valid_domain(v@),
{
    let n = v.len();
    if n < 1 || n > 253 {
        return false;
    }
    let parts = split_char(v, '.');
    let ghost ps = spec_split(v@, '.');
    let mut i: usize = 0;
    while i < parts.len()
        invariant
            i <= parts@.len(),
            parts@.map_values(|p: Vec<char>| p@) == ps,
            parts@.len() == ps.len(),
            forall|k: int| 0 <= k < i ==> label_ok(ps[k]),
        decreases parts@.len() - i,
    {
        proof {
            assert(parts@[i as int]@ == ps[i as int]);
        }
        if !label_check(&parts[i]) {
            return false;
        }
        i = i + 1;
    }
    true
}

/// Whether a token is a valid hostname under the label grammar.
pub fn is_valid_domain(domain: &str) -> (b: bool)
    ensures
        b == spec_is_valid_domain(domain@),
{
    let v = chars_of(domain);
    is_valid_domain_chars(&v)
}

// ------------------------------------------------------------------
// Line grammar
// ------------------------------------------------------------------

/// A well-formed record line: at least two whitespace-separated tokens, an
/// address first, valid names after it.
pub open spec fn spec_line_valid(l: Seq<char>) -> bool {
    let toks = spec_tokens(l);
    &&& toks.len() >= 2
    &&& spec_is_valid_ip(toks[0])
    &&& (forall|i: int| 1 <= i < toks.len() ==> spec_is_valid_domain(toks[i]))
}

/// The label reported for a rejected name: the first label that breaks the
/// grammar, or nothing when every label passes and only the total length
/// is at fault.
pub open spec fn bad_label_matches(lab: Option<String>, t: Seq<char>) -> bool {
    let ls = spec_split(t, '.');
    match lab {
        Some(lb) => exists|j: int|
            #![auto]
            0 <= j < ls.len() && !label_ok(ls[j]) && (forall|m: int|
                0 <= m < j ==> label_ok(ls[m])) && lb@ == ls[j],
        None => forall|j: int| 0 <= j < ls.len() ==> label_ok(ls[j]),
    }
}

/// The exact relation between a rejected line and the error reported for
/// it.
pub open spec fn line_error_matches(e: ValidationError, l: Seq<char>) -> bool {
    let toks = spec_tokens(l);
    match e {
        ValidationError::MissingField => toks.len() < 2,
        ValidationError::InvalidAddress { token } => toks.len() >= 2 && !spec_is_valid_ip(toks[0])
            && token@ == toks[0],
        ValidationError::InvalidName { token, label } => {
            &&& toks.len() >= 2
            &&& spec_is_valid_ip(toks[0])
            &&& exists|k: int|
                #![auto]
                1 <= k < toks.len() && !spec_is_valid_domain(toks[k]) && (forall|m: int|
                    1 <= m < k ==> spec_is_valid_domain(toks[m])) && token@ == toks[k]
                    && bad_label_matches(label, toks[k])
        },
        _ => false,
    }
}

fn find_bad_label(t: &Vec<char>) -> (r: Option<String>)
    ensures
        bad_label_matches(r, t@),
{
    let parts = split_char(t, '.');
    let ghost ps = spec_split(t@, '.');
    let mut i: usize = 0;
    while i < parts.len()
        invariant
            i <= parts@.len(),
            parts@.map_values(|p: Vec<char>| p@) == ps,
            parts@.len() == ps.len(),
            forall|k: int| 0 <= k < i ==> label_ok(ps[k]),
        decreases parts@.len() - i,
    {
        proof {
            assert(parts@[i as int]@ == ps[i as int]);
        }
        if !label_check(&parts[i]) {
            let lb = string_of(&parts[i]);
            proof {
                assert(0 <= i < ps.len() && !label_ok(ps[i as int]) && (forall|m: int|
                    0 <= m < i ==> label_ok(ps[m])) && lb@ == ps[i as int]);
            }
            return Some(lb);
        }
        i = i + 1;
    }
    None
}

fn validate_line_chars(lv: &Vec<char>) -> (r: Result<Record, ValidationError>)
    ensures
        match r {
            Ok(rec) => spec_line_valid(lv@) && rec.address@ == spec_tokens(lv@)[0]
                && rec.names@.map_values(|n: String| n@) == spec_tokens(lv@).skip(1),
            Err(e) => !spec_line_valid(lv@) && line_error_matches(e, lv@),
        },
{
    let toks = tokenize(lv);
    let ghost tseq = spec_tokens(lv@);
    let n = toks.len();
    if n < 2 {
        return Err(ValidationError::MissingField);
    }
    proof {
        assert(toks@[0]@ == tseq[0]);
    }
    if !is_valid_ip_chars(&toks[0]) {
        let token = string_of(&toks[0]);
        return Err(ValidationError::InvalidAddress { token });
    }
    let mut names: Vec<String> = Vec::new();
    let mut i: usize = 1;
    while i < n
        invariant
            1 <= i <= n,
            n == toks@.len(),
            toks@.map_values(|t: Vec<char>| t@) == tseq,
            toks@.len() == tseq.len(),
            spec_is_valid_ip(tseq[0]),
            forall|k: int| 1 <= k < i ==> spec_is_valid_domain(tseq[k]),
            names@.map_values(|nm: String| nm@) == tseq.subrange(1, i as int),
        decreases n - i,
    {
        proof {
            assert(toks@[i as int]@ == tseq[i as int]);
        }
        if !is_valid_domain_chars(&toks[i]) {
            let token = string_of(&toks[i]);
            let label = find_bad_label(&toks[i]);
            let e = ValidationError::InvalidName { token, label };
            proof {
                assert(line_error_matches(e, lv@)) by {
                    assert(1 <= i < tseq.len() && !spec_is_valid_domain(tseq[i as int]) && (
                    forall|m: int| 1 <= m < i ==> spec_is_valid_domain(tseq[m])) && token@
                        == tseq[i as int] && bad_label_matches(label, tseq[i as int]));
                }
            }
            return Err(e);
        }
        let ghost m0 = names@.map_values(|nm: String| nm@);
        names.push(string_of(&toks[i]));
        proof {
            assert(names@.map_values(|nm: String| nm@) =~= m0 + seq![tseq[i as int]]);
            assert(names@.map_values(|nm: String| nm@) =~= tseq.subrange(1, i + 1));
        }
        i = i + 1;
    }
    let address = string_of(&toks[0]);
    proof {
        assert(tseq.subrange(1, n as int) =~= tseq.skip(1));
    }
    Ok(Record { address, names })
}

/// Validate one record line: an address token followed by at least one
/// name token. Blank and comment lines are not records and are skipped by
/// the document validator before it calls this.
pub fn validate_hosts_line(line: &str) -> (r: Result<Record, ValidationError>)
    ensures
        match r {
            Ok(rec) => spec_line_valid(line@) && rec.address@ == spec_tokens(line@)[0]
                && rec.names@.map_values(|n: String| n@) == spec_tokens(line@).skip(1),
            Err(e) => !spec_line_valid(line@) && line_error_matches(e, line@),
        },
{
    let v = chars_of(line);
    validate_line_chars(&v)
}

// ------------------------------------------------------------------
// Document grammar
// ------------------------------------------------------------------

/// Whether a text is empty or whitespace-only.
pub open spec fn all_ws(s: Seq<char>) -> bool {
    spec_trim(s).len() == 0
}

/// A line that must itself be a valid record: neither blank nor a comment.
pub open spec fn line_relevant(l: Seq<char>) -> bool {
    spec_trim(l).len() > 0 && spec_trim(l)[0] != '#'
}

/// A well-formed host-mapping document: not whitespace-only, free of
/// control characters other than `\n`, `\r`, `\t`, and every
/// non-blank, non-comment line is a valid record line.
pub open spec fn spec_doc_valid(s: Seq<char>) -> bool {
    &&& !all_ws(s)
    &&& (forall|i: int| 0 <= i < s.len() ==> !is_bad_control_char(s[i]))
    &&& (forall|k: int|
        #![auto]
        0 <= k < spec_lines(s).len() && line_relevant(spec_lines(s)[k]) ==> spec_line_valid(
            spec_trim(spec_lines(s)[k]),
        ))
}

/// The exact relation between a rejected document and the error reported
/// for it.
pub open spec fn doc_error_matches(e: ValidationError, s: Seq<char>, origin: Seq<char>) -> bool {
    match e {
        ValidationError::EmptyDocument => all_ws(s),
        ValidationError::IllegalControlCharacter { offset } => {
            &&& !all_ws(s)
            &&& offset < s.len()
            &&& is_bad_control_char(s[offset as int])
            &&& (forall|m: int| 0 <= m < offset ==> !is_bad_control_char(s[m]))
        },
        ValidationError::LineValidationError { line_no, text, origin: o, cause } => {
            let ls = spec_lines(s);
            &&& !all_ws(s)
            &&& (forall|i: int| 0 <= i < s.len() ==> !is_bad_control_char(s[i]))
            &&& 1 <= line_no <= ls.len()
            &&& line_relevant(ls[line_no - 1])
            &&& !spec_line_valid(spec_trim(ls[line_no - 1]))
            &&& (forall|m: int|
                #![auto]
                0 <= m < line_no - 1 && line_relevant(ls[m]) ==> spec_line_valid(spec_trim(ls[m])))
            &&& text@ == spec_trim(ls[line_no - 1])
            &&& o@ == origin
            &&& line_error_matches(*cause, spec_trim(ls[line_no - 1]))
        },
        _ => false,
    }
}

/// Validate a whole fetched document against the host-mapping grammar;
/// acceptance is all-or-nothing, and the first failing line aborts with
/// its position, text and origin.
pub fn validate_hosts_content(content: &str, origin: &str) -> (r: Result<(), ValidationError>)
    ensures
        match r {
            Ok(_) => spec_doc_valid(content@),
            Err(e) => !spec_doc_valid(content@) && doc_error_matches(e, content@, origin@),
        },
{
    let v = chars_of(content);
    let trimmed = trim_chars(&v);
    if trimmed.len() == 0 {
        return Err(ValidationError::EmptyDocument);
    }
    let mut i: usize = 0;
    while i < v.len()
        invariant
            i <= v@.len(),
            forall|m: int| 0 <= m < i ==> !is_bad_control_char(v@[m]),
        decreases v@.len() - i,
    {
        if bad_control_char(v[i]) {
            return Err(ValidationError::IllegalControlCharacter { offset: i });
        }
        i = i + 1;
    }
    let ls = split_lines(&v);
    let ghost lsq = spec_lines(content@);
    let mut k: usize = 0;
    while k < ls.len()
        invariant
            k <= ls@.len(),
            ls@.map_values(|l: Vec<char>| l@) == lsq,
            ls@.len() == lsq.len(),
            forall|m: int|
                #![auto]
                0 <= m < k && line_relevant(lsq[m]) ==> spec_line_valid(spec_trim(lsq[m])),
        decreases ls@.len() - k,
    {
        proof {
            assert(ls@[k as int]@ == lsq[k as int]);
        }
        let tl = trim_chars(&ls[k]);
        if tl.len() > 0 && tl[0] != '#' {
            match validate_line_chars(&tl) {
                Ok(_) => {},
                Err(cause) => {
                    let text = string_of(&tl);
                    let o = String::from_str(origin);
                    let e = ValidationError::LineValidationError {
                        line_no: k + 1,
                        text,
                        origin: o,
                        cause: Box::new(cause),
                    };
                    proof {
                        assert(line_relevant(lsq[k as int]));
                        assert(!spec_doc_valid(content@));
                    }
                    return Err(e);
                },
            }
        }
        k = k + 1;
    }
    Ok(())
}

/// Validate every fetched document in order; the first failure aborts the
/// whole run, so nothing is accepted unless everything is.
pub fn validate_sources(docs: &Vec<SourceDocument>) -> (r: Result<(), ValidationError>)
    ensures
        match r {
            Ok(_) => forall|k: int| 0 <= k < docs@.len() ==> spec_doc_valid(docs@[k].raw@),
            Err(e) => exists|k: int|
                #![auto]
                0 <= k < docs@.len() && !spec_doc_valid(docs@[k].raw@) && (forall|m: int|
                    0 <= m < k ==> spec_doc_valid(docs@[m].raw@)) && doc_error_matches(
                    e,
                    docs@[k].raw@,
                    docs@[k].origin@,
                ),
        },
{
    let mut i: usize = 0;
    while i < docs.len()
        invariant
            i <= docs@.len(),
            forall|m: int| 0 <= m < i ==> spec_doc_valid(docs@[m].raw@),
        decreases docs@.len() - i,
    {
        let d = &docs[i];
        match validate_hosts_content(d.raw.as_str(), d.origin.as_str()) {
            Ok(_) => {},
            Err(e) => {
                proof {
                    assert(0 <= i < docs@.len() && !spec_doc_valid(docs@[i as int].raw@) && (
                    forall|m: int| 0 <= m < i ==> spec_doc_valid(docs@[m].raw@))
                        && doc_error_matches(e, docs@[i as int].raw@, docs@[i as int].origin@));
                }
                return Err(e);
            },
        }
        i = i + 1;
    }
    Ok(())
}

} // verus!
