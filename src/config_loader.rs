//! The merge-rule text format: one rule per line, two byte values separated by
//! white space; lines that are empty or start with `#` are skipped. The rule on
//! the k-th rule line (from 0) merges its pair into token 256 + k; a later rule for
//! the same pair replaces an earlier one.

use crate::merges::BpeMerges;
use crate::utils::{parse_unsigned, parsed_number};
use vstd::prelude::*;

verus! {

/// ASCII white space, as `char::is_whitespace` reads it.
pub open spec fn is_ascii_ws(b: u8) -> bool {
    b == 32 || (9 <= b && b <= 13)
}

/// The index of the first line feed at or after `i`, or the length of `t`.
pub open spec fn line_end(t: Seq<u8>, i: int) -> int
    decreases t.len() - i,
{
    if i >= t.len() {
        t.len() as int
    } else if t[i] == 10 {
        i
    } else {
        line_end(t, i + 1)
    }
}

/// The line that starts at `i`, without its line feed, and without a carriage
/// return just before that line feed.
pub open spec fn line_at(t: Seq<u8>, i: int) -> Seq<u8> {
    let e = line_end(t, i);
    let raw = t.subrange(i, e);
    if e < t.len() && raw.len() > 0 && raw.last() == 13 {
        raw.drop_last()
    } else {
        raw
    }
}

/// The lines of `t` from `i` on; a final line feed ends the last line and does not
/// start another.
pub open spec fn lines_from(t: Seq<u8>, i: int) -> Seq<Seq<u8>>
    decreases t.len() + 1 - i,
{
    if i >= t.len() || i < 0 {
        Seq::empty()
    } else {
        let e = line_end(t, i);
        if e < i || e > t.len() {
            Seq::empty()
        } else {
            seq![line_at(t, i)] + lines_from(t, e + 1)
        }
    }
}

/// The first index at or after `i` that holds no white space.
pub open spec fn skip_ws(l: Seq<u8>, i: int) -> int
    decreases l.len() - i,
{
    if 0 <= i < l.len() && is_ascii_ws(l[i]) {
        skip_ws(l, i + 1)
    } else {
        i
    }
}

/// The first index at or after `i` that holds white space, or the length.
pub open spec fn field_end(l: Seq<u8>, i: int) -> int
    decreases l.len() - i,
{
    if 0 <= i < l.len() && !is_ascii_ws(l[i]) {
        field_end(l, i + 1)
    } else {
        i
    }
}

/// The white-space separated fields of `l` from `i` on.
pub open spec fn fields_from(l: Seq<u8>, i: int) -> Seq<Seq<u8>>
    decreases l.len() + 1 - i,
{
    let s = skip_ws(l, i);
    if s >= l.len() || s < i || i < 0 {
        Seq::empty()
    } else {
        let e = field_end(l, s);
        if e <= s || e > l.len() {
            Seq::empty()
        } else {
            seq![l.subrange(s, e)] + fields_from(l, e)
        }
    }
}

/// What is wrong with a rule line.
#[derive(Clone, Copy, Debug, PartialEq, Eq, Structural)]
pub enum MergeRuleErrorKind {
    /// The line does not hold exactly two fields.
    WrongFieldCount,
    /// The first field is not a byte value (0 to 255).
    BadFirstByte,
    /// The second field is not a byte value (0 to 255).
    BadSecondByte,
    /// The rule would need a token above 65535.
    TokenSpaceExhausted,
}

impl MergeRuleErrorKind {
    /// A description of the problem, for messages.
    pub fn message(&self) -> &'static str {
        match self {
            MergeRuleErrorKind::WrongFieldCount => "Invalid merge rule format: expected two numbers separated by white space",
            MergeRuleErrorKind::BadFirstByte => "Failed to parse first byte value",
            MergeRuleErrorKind::BadSecondByte => "Failed to parse second byte value",
            MergeRuleErrorKind::TokenSpaceExhausted => "Too many merge rules: no token above 65535 is left",
        }
    }
}

/// A refused rule text: the 1-based number of the offending line and what is wrong.
#[derive(Clone, Copy, Debug, PartialEq, Eq, Structural)]
pub struct MergeRulesError {
    pub line: usize,
    pub kind: MergeRuleErrorKind,
}

/// One line read as a rule: `Ok(None)` for a line that is skipped.
pub open spec fn rule_of_line(l: Seq<u8>) -> Result<Option<(u8, u8)>, MergeRuleErrorKind> {
    if l.len() == 0 || l[0] == 35 {
        Ok(None)
    } else {
        let f = fields_from(l, 0);
        if f.len() != 2 {
            Err(MergeRuleErrorKind::WrongFieldCount)
        } else {
            match parsed_number(f[0], 255) {
                None => Err(MergeRuleErrorKind::BadFirstByte),
                Some(a) => match parsed_number(f[1], 255) {
                    None => Err(MergeRuleErrorKind::BadSecondByte),
                    Some(b) => Ok(Some((a as u8, b as u8))),
                },
            }
        }
    }
}

/// The table built from a list of lines, with the token the next rule would get.
pub open spec fn rules_table(lines: Seq<Seq<u8>>) -> Result<(Map<(u16, u16), u16>, nat), MergeRulesError>
    decreases lines.len(),
{
    if lines.len() == 0 {
        Ok((Map::empty(), 256))
    } else {
        match rules_table(lines.drop_last()) {
            Err(e) => Err(e),
            Ok((m, next)) => match rule_of_line(lines.last()) {
                Err(kind) => Err(MergeRulesError { line: lines.len() as usize, kind }),
                Ok(None) => Ok((m, next)),
                Ok(Some((a, b))) => if next > 65535 {
                    Err(MergeRulesError { line: lines.len() as usize, kind: MergeRuleErrorKind::TokenSpaceExhausted })
                } else {
                    Ok((m.insert((a as u16, b as u16), next as u16), next + 1))
                },
            },
        }
    }
}

/// The table that a rule text describes, or the first error in it.
pub open spec fn merges_of_text(t: Seq<u8>) -> Result<Map<(u16, u16), u16>, MergeRulesError> {
    match rules_table(lines_from(t, 0)) {
        Ok((m, _)) => Ok(m),
        Err(e) => Err(e),
    }
}

fn skip_ws_at(l: &[u8], i: usize) -> (r: usize)
    requires
        i <= l@.len(),
    ensures
        r as int == skip_ws(l@, i as int),
        i <= r <= l@.len(),
        r < l@.len() ==> !is_ascii_ws(l@[r as int]),
{
    let mut j = i;
    while j < l.len() && (l[j] == 32 || (9 <= l[j] && l[j] <= 13))
        invariant
            i <= j <= l@.len(),
            skip_ws(l@, i as int) == skip_ws(l@, j as int),
        decreases l.len() - j,
    {
        j = j + 1;
    }
    j
}

fn field_end_at(l: &[u8], i: usize) -> (r: usize)
    requires
        i <= l@.len(),
    ensures
        r as int == field_end(l@, i as int),
        i <= r <= l@.len(),
        i < l@.len() && !is_ascii_ws(l@[i as int]) ==> i < r,
{
    let mut j = i;
    while j < l.len() && !(l[j] == 32 || (9 <= l[j] && l[j] <= 13))
        invariant
            i <= j <= l@.len(),
            field_end(l@, i as int) == field_end(l@, j as int),
        decreases l.len() - j,
    {
        j = j + 1;
    }
    j
}

fn classify_line(l: &[u8]) -> (r: Result<Option<(u8, u8)>, MergeRuleErrorKind>)
    ensures
        r == rule_of_line(l@),
{
    let n = l.len();
    if n == 0 || l[0] == 35 {
        return Ok(None);
    }
    let ghost f = fields_from(l@, 0);
    let s1 = skip_ws_at(l, 0);
    if s1 == n {
        return Err(MergeRuleErrorKind::WrongFieldCount);
    }
    let e1 = field_end_at(l, s1);
    assert(f == seq![l@.subrange(s1 as int, e1 as int)] + fields_from(l@, e1 as int));
    let s2 = skip_ws_at(l, e1);
    if s2 == n {
        proof {
            assert(fields_from(l@, e1 as int) =~= Seq::<Seq<u8>>::empty());
            assert(f.len() == 1);
        }
        return Err(MergeRuleErrorKind::WrongFieldCount);
    }
    let e2 = field_end_at(l, s2);
    assert(fields_from(l@, e1 as int) == seq![l@.subrange(s2 as int, e2 as int)] + fields_from(l@, e2 as int));
    let s3 = skip_ws_at(l, e2);
    if s3 < n {
        proof {
            let e3 = field_end(l@, s3 as int);
            lemma_field_end_after(l@, s3 as int);
            assert(fields_from(l@, e2 as int) == seq![l@.subrange(s3 as int, e3)] + fields_from(l@, e3));
            assert(fields_from(l@, e2 as int).len() >= 1);
            assert(f.len() >= 3);
        }
        return Err(MergeRuleErrorKind::WrongFieldCount);
    }
    proof {
        assert(fields_from(l@, e2 as int) =~= Seq::<Seq<u8>>::empty());
        assert(fields_from(l@, e1 as int) =~= seq![l@.subrange(s2 as int, e2 as int)]);
        assert(f =~= seq![l@.subrange(s1 as int, e1 as int), l@.subrange(s2 as int, e2 as int)]);
    }
    match parse_unsigned(l, s1, e1, 255) {
        None => Err(MergeRuleErrorKind::BadFirstByte),
        Some(a) => match parse_unsigned(l, s2, e2, 255) {
            None => Err(MergeRuleErrorKind::BadSecondByte),
            Some(b) => Ok(Some((a as u8, b as u8))),
        },
    }
}


/// A line-end index is never before the start.
proof fn lemma_line_end_bounds(t: Seq<u8>, i: int)
    requires
        0 <= i,
    ensures
        i <= line_end(t, i) || i > t.len(),
        line_end(t, i) <= t.len() || i > t.len(),
        line_end(t, i) < t.len() ==> t[line_end(t, i)] == 10,
    decreases t.len() - i,
{
    if i < t.len() && t[i] != 10 {
        lemma_line_end_bounds(t, i + 1);
    }
}

/// Parses a merge-rule text into a table. Rules are numbered from token 256 in the
/// order of their lines.
pub fn parse_bpe_merges(text: &[u8]) -> (r: Result<BpeMerges, MergeRulesError>)
    ensures
        match merges_of_text(text@) {
            Ok(m) => r matches Ok(table) && table@ == m,
            Err(e) => r == Err::<BpeMerges, MergeRulesError>(e),
        },
{
    let ghost t = text@;
    let n = text.len();
    let mut table = BpeMerges::new();
    let mut next_token: u32 = 256;
    let mut line_no: usize = 0;
    let mut i: usize = 0;
    let ghost mut done: Seq<Seq<u8>> = Seq::empty();
    assert(done + lines_from(t, 0) =~= lines_from(t, 0));
    while i < n
        invariant
            t == text@,
            n == t.len(),
            i <= n,
            line_no <= i,
            line_no == done.len(),
            done + lines_from(t, i as int) == lines_from(t, 0),
            rules_table(done) == Ok::<(Map<(u16, u16), u16>, nat), MergeRulesError>((table@, next_token as nat)),
            next_token <= 65536,
        decreases n - i,
    {
        let mut e = i;
        while e < n && text[e] != 10
            invariant
                i <= e <= n,
                n == t.len(),
                t == text@,
                line_end(t, i as int) == line_end(t, e as int),
            decreases n - e,
        {
            e = e + 1;
        }
        let mut le = e;
        if e < n && e > i && text[e - 1] == 13 {
            le = e - 1;
        }
        let mut line: Vec<u8> = Vec::new();
        let mut k = i;
        while k < le
            invariant
                i <= k <= le <= n,
                t == text@,
                n == t.len(),
                line@ == t.subrange(i as int, k as int),
            decreases le - k,
        {
            line.push(text[k]);
            k = k + 1;
            assert(line@ =~= t.subrange(i as int, k as int));
        }
        proof {
            assert(line_end(t, e as int) == e as int);
            lemma_line_end_bounds(t, i as int);
            assert(line@ =~= line_at(t, i as int));
            assert(lines_from(t, i as int) == seq![line_at(t, i as int)] + lines_from(t, e + 1));
            assert((done.push(line@)) + lines_from(t, e + 1) =~= done + lines_from(t, i as int));
            assert(done.push(line@).drop_last() =~= done);
        }
        let rule = classify_line(line.as_slice());
        line_no = line_no + 1;
        match rule {
            Err(kind) => {
                proof {
                    lemma_rules_table_error_persists(done.push(line@), lines_from(t, e + 1));
                }
                return Err(MergeRulesError { line: line_no, kind });
            },
            Ok(None) => {},
            Ok(Some((a, b))) => {
                if next_token > 65535 {
                    proof {
                        lemma_rules_table_error_persists(done.push(line@), lines_from(t, e + 1));
                    }
                    return Err(MergeRulesError { line: line_no, kind: MergeRuleErrorKind::TokenSpaceExhausted });
                }
                table.insert(a as u16, b as u16, next_token as u16);
                next_token = next_token + 1;
            },
        }
        proof {
            done = done.push(line@);
        }
        if e == n {
            proof {
                assert(lines_from(t, (e + 1) as int) =~= Seq::<Seq<u8>>::empty());
            }
            i = n;
        } else {
            i = e + 1;
        }
    }
    proof {
        assert(lines_from(t, i as int) =~= Seq::<Seq<u8>>::empty());
        assert(done =~= done + lines_from(t, i as int));
    }
    Ok(table)
}

/// Once some line is refused, lines after it do not change the outcome.
proof fn lemma_rules_table_error_persists(lines: Seq<Seq<u8>>, more: Seq<Seq<u8>>)
    requires
        rules_table(lines) is Err,
    ensures
        rules_table(lines + more) == rules_table(lines),
    decreases more.len(),
{
    if more.len() == 0 {
        assert(lines + more =~= lines);
    } else {
        lemma_rules_table_error_persists(lines, more.drop_last());
        assert((lines + more).drop_last() =~= lines + more.drop_last());
    }
}


/// Every rule of a table built from lines joins two byte values.
pub proof fn lemma_rules_are_byte_pairs(lines: Seq<Seq<u8>>)
    ensures
        rules_table(lines) matches Ok((m, _)) ==> forall|p: (u16, u16)| #[trigger] m.contains_key(p)
            ==> p.0 < 256 && p.1 < 256,
    decreases lines.len(),
{
    if lines.len() > 0 {
        lemma_rules_are_byte_pairs(lines.drop_last());
    }
}


/// A field that starts on a byte that is not white space is not empty.
proof fn lemma_field_end_after(l: Seq<u8>, i: int)
    requires
        0 <= i < l.len(),
        !is_ascii_ws(l[i]),
    ensures
        i < field_end(l, i) <= l.len(),
{
    lemma_field_end_bounded(l, i + 1);
}

/// A field ends within the line.
proof fn lemma_field_end_bounded(l: Seq<u8>, i: int)
    requires
        0 <= i <= l.len(),
    ensures
        i <= field_end(l, i) <= l.len(),
    decreases l.len() - i,
{
    if i < l.len() && !is_ascii_ws(l[i]) {
        lemma_field_end_bounded(l, i + 1);
    }
}

} // verus!
